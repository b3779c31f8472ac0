//! One connection: from the bytes of a request to the bytes of the answer.
//!
//! A connection is handled in two steps, with the caller's reading of a
//! file between them. `handle_client` takes the request and either answers
//! at once or names the file to read; `respond` takes what the reading gave
//! and answers. Whoever holds the sockets and the files runs the two and
//! does nothing else.

use crate::config::Config;
use crate::content_type::{content_type, content_type_of};
use crate::path::resolved;
use crate::request::{request_path, requested_path};
use crate::response::{error_response, not_found_bytes, success_bytes, success_response};
use crate::static_files::{read_bytes, served, StaticFileServer};
use crate::tls::{chosen, load, pem_certificates, pem_pkcs8_keys, TlsContext, TlsLoadError};
use vstd::prelude::*;
use vstd::string::StringSliceAdditionalSpecFns;
use vstd::utf8::encode_utf8;

verus! {

/// What is to be done next for a connection.
#[derive(Debug)]
pub enum Step {
    /// Read `file`, then ask `respond` with `path` and what was read.
    Read { file: Vec<u8>, path: Vec<u8> },
    /// Send `response`; the connection is done.
    Respond { response: Vec<u8> },
}

/// The answer to a request for `path`, where `root` is the directory that
/// is served (`None` where no files are served) and `contents` is what
/// reading the file that the path names gave.
pub open spec fn answer(root: Option<Seq<u8>>, path: Seq<u8>, contents: Option<Seq<u8>>) -> Seq<
    u8,
> {
    match root {
        None => not_found_bytes(),
        Some(r) => match served(r, path, contents) {
            Ok(bytes) => success_bytes(bytes, content_type(path).spec_bytes()),
            Err(_) => not_found_bytes(),
        },
    }
}

/// What a connection sends for `request`, where `files` holds, for every
/// file that can be read, its bytes.
pub open spec fn reply(root: Option<Seq<u8>>, request: Seq<u8>, files: Map<Seq<u8>, Seq<u8>>) -> Seq<
    u8,
> {
    let path = requested_path(request);
    match root {
        None => not_found_bytes(),
        Some(r) => match resolved(r, path) {
            None => not_found_bytes(),
            Some(file) => if files.dom().contains(file) {
                success_bytes(files[file], content_type(path).spec_bytes())
            } else {
                not_found_bytes()
            },
        },
    }
}

/// What a server is started with and keeps unchanged: its settings, the
/// files it serves, if it serves any, and its TLS configuration, if it has
/// one. Handling a connection reads the second and never the third.
#[derive(Debug, Clone)]
pub struct Server {
    config: Config,
    static_server: Option<StaticFileServer>,
    tls_config: Option<TlsContext>,
}

impl Server {
    /// The directory that is served, and `None` where no files are served.
    pub closed spec fn root(&self) -> Option<Seq<u8>> {
        match self.static_server {
            None => None,
            Some(files) => Some(files.root()),
        }
    }

    /// The settings that the server was made from.
    pub closed spec fn settings(&self) -> Config {
        self.config
    }

    /// Whether the server holds a TLS configuration.
    pub closed spec fn has_tls(&self) -> bool {
        self.tls_config is Some
    }

    /// A server for `config`. It serves the files below the configured
    /// root directory where the settings switch that on, and none
    /// otherwise. `cert_pem` and `key_pem` are the bytes of the two files
    /// that the settings name for TLS; they are looked at only where the
    /// settings switch TLS on, and only then can making the server fail.
    pub fn new(config: Config, cert_pem: &[u8], key_pem: &[u8]) -> (result: Result<
        Self,
        TlsLoadError,
    >)
        ensures
            !config.server.tls.enabled ==> result is Ok,
            config.server.tls.enabled ==> match chosen(
                pem_certificates(cert_pem@),
                pem_pkcs8_keys(key_pem@),
            ) {
                Err(e) => result matches Err(f) && f == e,
                Ok(_) => result matches Err(f) ==> f == TlsLoadError::InvalidPrivateKey,
            },
            result matches Ok(server) ==> {
                &&& server.settings() == config
                &&& server.has_tls() == config.server.tls.enabled
                &&& server.root() == if config.static_files.enabled {
                    Some(encode_utf8(config.static_files.root_dir@))
                } else {
                    None
                }
            },
    {
        let static_server = if config.static_files.enabled {
            Some(StaticFileServer::new(config.static_files.root_dir.clone()))
        } else {
            None
        };
        match load(config.server.tls.enabled, cert_pem, key_pem) {
            Ok(tls_config) => Ok(Self { config, static_server, tls_config }),
            Err(e) => Err(e),
        }
    }

    /// The settings that the server was made from.
    pub fn config(&self) -> (config: &Config)
        ensures
            *config == self.settings(),
    {
        &self.config
    }

    /// The files that are served, if any are.
    pub fn static_server(&self) -> (files: Option<&StaticFileServer>)
        ensures
            match files {
                None => self.root() is None,
                Some(f) => self.root() == Some(f.root()),
            },
    {
        self.static_server.as_ref()
    }

    /// The TLS configuration, if the server has one.
    pub fn tls_config(&self) -> (tls: Option<&TlsContext>)
        ensures
            tls is Some == self.has_tls(),
    {
        self.tls_config.as_ref()
    }

    /// The first step for a connection on which `request` was received:
    /// the path is read from the request line; where no files are served,
    /// or the path joined to the root lies outside the root, the answer is
    /// 404 at once; otherwise the file to read is named.
    pub fn handle_client(&self, request: &[u8]) -> (step: Step)
        ensures
            match step {
                Step::Read { file, path } => {
                    &&& path@ == requested_path(request@)
                    &&& self.root() matches Some(root)
                    &&& resolved(root, path@) == Some(file@)
                },
                Step::Respond { response } => {
                    &&& response@ == not_found_bytes()
                    &&& (self.root() is Some ==> resolved(
                        self.root()->0,
                        requested_path(request@),
                    ) is None)
                },
            },
    {
        let path = request_path(request);
        match &self.static_server {
            None => Step::Respond { response: error_response(404, "Not Found") },
            Some(files) => match files.resolve(path.as_slice()) {
                Ok(file) => Step::Read { file, path },
                Err(_) => Step::Respond { response: error_response(404, "Not Found") },
            },
        }
    }

    /// The second step: the answer to a request for `path`, given in
    /// `contents` what reading the named file gave, `None` where it could
    /// not be read. A file that was read is sent with status 200, its
    /// content type and its bytes; everything else is answered with 404.
    pub fn respond(&self, path: &[u8], contents: Option<Vec<u8>>) -> (response: Vec<u8>)
        ensures
            response@ == answer(self.root(), path@, read_bytes(contents)),
            self.root() is None ==> response@ == not_found_bytes(),
            self.root() is Some && resolved(self.root()->0, path@) is None ==> response@
                == not_found_bytes(),
            contents is None ==> response@ == not_found_bytes(),
            self.root() is Some && resolved(self.root()->0, path@) is Some && contents is Some
                ==> response@ == success_bytes(
                contents->0@,
                content_type(path@).spec_bytes(),
            ),
    {
        match &self.static_server {
            None => error_response(404, "Not Found"),
            Some(files) => match files.serve_bytes(path, contents) {
                Ok(bytes) => success_response(bytes.as_slice(), content_type_of(path)),
                Err(_) => error_response(404, "Not Found"),
            },
        }
    }
}

/// The two steps together send what `reply` says: whatever the request,
/// when the file that the first step names is read from `files`, the
/// second step's answer is the reply; and when the first step answers at
/// once, its answer is the reply.
pub proof fn lemma_steps_give_reply(
    root: Option<Seq<u8>>,
    request: Seq<u8>,
    files: Map<Seq<u8>, Seq<u8>>,
)
    ensures
        ({
            let path = requested_path(request);
            match root {
                None => reply(root, request, files) == not_found_bytes(),
                Some(r) => match resolved(r, path) {
                    None => reply(root, request, files) == not_found_bytes(),
                    Some(file) => reply(root, request, files) == answer(
                        root,
                        path,
                        if files.dom().contains(file) {
                            Some(files[file])
                        } else {
                            None
                        },
                    ),
                },
            }
        }),
{
}

/// A file below the root is sent as it is: for a request whose path names
/// a file that can be read, the reply is status 200, the content type that
/// goes with the path, the length of the file, and the file's bytes.
pub proof fn lemma_file_below_root_is_sent(
    root: Seq<u8>,
    request: Seq<u8>,
    files: Map<Seq<u8>, Seq<u8>>,
)
    requires
        resolved(root, requested_path(request)) is Some,
        files.dom().contains(resolved(root, requested_path(request))->0),
    ensures
        ({
            let path = requested_path(request);
            let body = files[resolved(root, path)->0];
            reply(Some(root), request, files) == crate::response::head(
                "200 OK".spec_bytes(),
                content_type(path).spec_bytes(),
                body.len(),
            ) + body
        }),
{
}

/// Nothing from outside the root is ever sent: a request whose path,
/// joined to the root, lies outside the root is answered with 404,
/// whatever files there are.
pub proof fn lemma_outside_root_is_not_found(
    root: Seq<u8>,
    request: Seq<u8>,
    files: Map<Seq<u8>, Seq<u8>>,
    contents: Option<Seq<u8>>,
)
    requires
        resolved(root, requested_path(request)) is None,
    ensures
        reply(Some(root), request, files) == not_found_bytes(),
        answer(Some(root), requested_path(request), contents) == not_found_bytes(),
{
}

/// Where no files are served, every request is answered with 404.
pub proof fn lemma_nothing_served_is_not_found(
    request: Seq<u8>,
    files: Map<Seq<u8>, Seq<u8>>,
    path: Seq<u8>,
    contents: Option<Seq<u8>>,
)
    ensures
        reply(None, request, files) == not_found_bytes(),
        answer(None, path, contents) == not_found_bytes(),
{
}

/// Every reply is framed: it is a head that announces the length of a
/// body, followed by exactly that body.
pub proof fn lemma_reply_is_framed(
    root: Option<Seq<u8>>,
    request: Seq<u8>,
    files: Map<Seq<u8>, Seq<u8>>,
)
    ensures
        exists|status: Seq<u8>, content_type: Seq<u8>, body: Seq<u8>|
            reply(root, request, files) == #[trigger] crate::response::framed(
                status,
                content_type,
                body,
            ),
{
    let r = reply(root, request, files);
    if r == not_found_bytes() {
        let message = "Not Found".spec_bytes();
        assert(r == crate::response::framed(
            crate::decimal::decimal(404) + " ".spec_bytes() + message,
            "text/plain".spec_bytes(),
            message,
        ));
    } else {
        let path = requested_path(request);
        let file = resolved(root->0, path)->0;
        assert(r == crate::response::framed(
            "200 OK".spec_bytes(),
            content_type(path).spec_bytes(),
            files[file],
        ));
    }
}

} // verus!
