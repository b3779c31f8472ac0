//! The settings that the server is started with. They are read elsewhere;
//! here they are plain values.

use crate::decimal::decimal;
use vstd::prelude::*;

verus! {

/// All settings of one server.
#[derive(Debug, Clone)]
pub struct Config {
    pub server: ServerConfig,
    pub static_files: StaticConfig,
    pub logging: LoggingConfig,
}

/// Where the server listens, and whether with TLS.
#[derive(Debug, Clone)]
pub struct ServerConfig {
    pub host: String,
    pub port: u16,
    pub tls: TlsConfig,
}

/// Whether TLS is wanted, and the files that hold the certificate chain
/// and the private key.
#[derive(Debug, Clone)]
pub struct TlsConfig {
    pub enabled: bool,
    pub cert_path: String,
    pub key_path: String,
}

/// Whether files are served, and the directory they are served from.
#[derive(Debug, Clone)]
pub struct StaticConfig {
    pub enabled: bool,
    pub root_dir: String,
}

/// How much is logged.
#[derive(Debug, Clone)]
pub struct LoggingConfig {
    pub level: String,
}

/// `n` in decimal, as characters.
pub open spec fn decimal_text(n: nat) -> Seq<char> {
    decimal(n).map_values(|b: u8| b as char)
}

/// The one-character text of a digit.
fn digit_text(d: u64) -> (text: &'static str)
    requires
        d < 10,
    ensures
        text@ == seq![(48 + d) as u8 as char],
{
    proof {
        reveal_strlit("0");
        reveal_strlit("1");
        reveal_strlit("2");
        reveal_strlit("3");
        reveal_strlit("4");
        reveal_strlit("5");
        reveal_strlit("6");
        reveal_strlit("7");
        reveal_strlit("8");
        reveal_strlit("9");
    }
    let text = if d == 0 {
        "0"
    } else if d == 1 {
        "1"
    } else if d == 2 {
        "2"
    } else if d == 3 {
        "3"
    } else if d == 4 {
        "4"
    } else if d == 5 {
        "5"
    } else if d == 6 {
        "6"
    } else if d == 7 {
        "7"
    } else if d == 8 {
        "8"
    } else {
        "9"
    };
    assert(text@ =~= seq![(48 + d) as u8 as char]);
    text
}

/// Appends `n` in decimal to `text`.
fn push_decimal_text(text: &mut String, n: u64)
    ensures
        final(text)@ == old(text)@ + decimal_text(n as nat),
    decreases n,
{
    if n >= 10 {
        push_decimal_text(text, n / 10);
    }
    text.append(digit_text(n % 10));
    proof {
        if n >= 10 {
            assert(decimal_text(n as nat) =~= decimal_text((n / 10) as nat).push(
                (48 + n % 10) as u8 as char,
            ));
        } else {
            assert(decimal_text(n as nat) =~= seq![(48 + n) as u8 as char]);
        }
        assert(text@ =~= old(text)@ + decimal_text(n as nat));
    }
}

impl ServerConfig {
    /// The address to listen on: the host, a colon, and the port in
    /// decimal.
    pub fn address(&self) -> (address: String)
        ensures
            address@ == self.host@ + ":"@ + decimal_text(self.port as nat),
    {
        let mut address = self.host.clone();
        address.append(":");
        push_decimal_text(&mut address, self.port as u64);
        assert(address@ =~= self.host@ + ":"@ + decimal_text(self.port as nat));
        address
    }
}

} // verus!
