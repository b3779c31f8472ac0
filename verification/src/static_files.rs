//! Files below one root directory.
//!
//! Reading a file is left to the caller. What is decided here is which file
//! a request names, and what a request yields once the caller has tried to
//! read that file. A path that ends outside the root yields nothing,
//! whatever the caller read.

use crate::content_type::{content_type, content_type_of};
use crate::path::{resolve, resolved};
use vstd::prelude::*;
use vstd::string::StringSliceAdditionalSpecFns;
use vstd::utf8::encode_utf8;

verus! {

/// Why a request yields no file.
#[derive(Debug, Clone, Copy, PartialEq, Eq, Structural)]
pub enum ServeError {
    /// The file is not there, or could not be read.
    NotFound,
    /// The path, joined to the root, lies outside the root.
    InvalidPath,
}

/// What a request for `path` yields when `root` is served and reading the
/// file that the path names gave `contents` (`None` where it could not be
/// read).
pub open spec fn served(root: Seq<u8>, path: Seq<u8>, contents: Option<Seq<u8>>) -> Result<
    Seq<u8>,
    ServeError,
> {
    if resolved(root, path) is None {
        Err(ServeError::InvalidPath)
    } else {
        match contents {
            None => Err(ServeError::NotFound),
            Some(bytes) => Ok(bytes),
        }
    }
}

/// The bytes that were read, as a sequence.
pub open spec fn read_bytes(contents: Option<Vec<u8>>) -> Option<Seq<u8>> {
    match contents {
        None => None,
        Some(bytes) => Some(bytes@),
    }
}

/// The files below one root directory.
#[derive(Debug, Clone)]
pub struct StaticFileServer {
    root_dir: String,
}

impl StaticFileServer {
    /// The root directory, as bytes.
    pub closed spec fn root(&self) -> Seq<u8> {
        encode_utf8(self.root_dir@)
    }

    /// Serves the files below `root_dir`.
    pub fn new(root_dir: String) -> (server: Self)
        ensures
            server.root() == encode_utf8(root_dir@),
    {
        Self { root_dir }
    }

    /// The root directory.
    pub fn root_dir(&self) -> (root_dir: &str)
        ensures
            root_dir.spec_bytes() == self.root(),
    {
        self.root_dir.as_str()
    }

    /// The file that a request for `path` names: the one to read before
    /// `serve` is asked. A path that, joined to the root, lies outside the
    /// root is refused, and only such a path.
    pub fn resolve(&self, path: &[u8]) -> (file: Result<Vec<u8>, ServeError>)
        ensures
            match file {
                Ok(f) => resolved(self.root(), path@) == Some(f@),
                Err(e) => e == ServeError::InvalidPath && resolved(self.root(), path@) is None,
            },
    {
        match resolve(self.root_dir.as_str().as_bytes(), path) {
            Some(file) => Ok(file),
            None => Err(ServeError::InvalidPath),
        }
    }

    /// What a request for `path` yields, given in `contents` what reading
    /// the file that `resolve` names gave, `None` where it could not be
    /// read. The bytes come back untouched, and only for a path that ends
    /// inside the root.
    pub fn serve(&self, path: &str, contents: Option<Vec<u8>>) -> (result: Result<
        Vec<u8>,
        ServeError,
    >)
        ensures
            result is Ok <==> resolved(self.root(), path.spec_bytes()) is Some && contents is Some,
            result matches Ok(bytes) ==> Some(bytes) == contents,
            result == Err::<Vec<u8>, ServeError>(ServeError::InvalidPath) <==> resolved(
                self.root(),
                path.spec_bytes(),
            ) is None,
            result == Err::<Vec<u8>, ServeError>(ServeError::NotFound) <==> resolved(
                self.root(),
                path.spec_bytes(),
            ) is Some && contents is None,
    {
        self.serve_bytes(path.as_bytes(), contents)
    }

    /// `serve` for a path that is held as bytes, as it comes off a request
    /// line.
    pub fn serve_bytes(&self, path: &[u8], contents: Option<Vec<u8>>) -> (result: Result<
        Vec<u8>,
        ServeError,
    >)
        ensures
            result is Ok <==> resolved(self.root(), path@) is Some && contents is Some,
            result matches Ok(bytes) ==> Some(bytes) == contents,
            result == Err::<Vec<u8>, ServeError>(ServeError::InvalidPath) <==> resolved(
                self.root(),
                path@,
            ) is None,
            result == Err::<Vec<u8>, ServeError>(ServeError::NotFound) <==> resolved(
                self.root(),
                path@,
            ) is Some && contents is None,
            match result {
                Ok(bytes) => served(self.root(), path@, read_bytes(contents)) == Ok::<
                    Seq<u8>,
                    ServeError,
                >(bytes@),
                Err(e) => served(self.root(), path@, read_bytes(contents)) == Err::<
                    Seq<u8>,
                    ServeError,
                >(e),
            },
    {
        match self.resolve(path) {
            Err(e) => Err(e),
            Ok(_) => match contents {
                None => Err(ServeError::NotFound),
                Some(bytes) => Ok(bytes),
            },
        }
    }

    /// The content type that is announced for `path`: by the extension of
    /// its file name, and `application/octet-stream` where the extension is
    /// unknown or missing.
    pub fn get_content_type(path: &str) -> (t: &'static str)
        ensures
            t == content_type(path.spec_bytes()),
    {
        content_type_of(path.as_bytes())
    }
}

} // verus!
