use vstd::prelude::*;
use vstd::string::StringExecFns;

use super::SessionError;
use url::Url;

verus! {

#[verifier::external_type_specification]
#[verifier::external_body]
pub struct ExUrl(Url);

#[verifier::external_type_specification]
#[verifier::external_body]
pub struct ExUrlParseError(url::ParseError);

/// Whether the stream-address parser accepts this text; acceptance depends on
/// the characters alone.
pub uninterp spec fn url_parse_ok(s: Seq<char>) -> bool;

/// Relies on url's Url::parse: deterministic in its input; whether the text
/// is accepted is named by `url_parse_ok`.
#[verifier::external_body]
fn parse_url(s: &str) -> (r: Result<Url, url::ParseError>)
    ensures
        r is Ok <==> url_parse_ok(s@),
{
    Url::parse(s)
}

/// The session address assembled from the builder's parts: scheme, host and
/// port, then the credential path segment when both credentials are set.
pub open spec fn session_url_chars(
    user: Option<Seq<char>>,
    password: Option<Seq<char>>,
    ip: Seq<char>,
    port: Seq<char>,
) -> Seq<char> {
    let base = "rtsp://"@ + ip + ":"@ + port;
    if user is Some && password is Some {
        base + "/user="@ + user->0 + "&password="@ + password->0
    } else {
        base
    }
}

/// Step-by-step builder for the address of a live camera session.
pub struct SessionUrlBuilder {
    user: Option<String>,
    password: Option<String>,
    ip_address: String,
    port: String,
}

impl SessionUrlBuilder {
    pub closed spec fn spec_user(&self) -> Option<Seq<char>> {
        self.user.deep_view()
    }

    pub closed spec fn spec_password(&self) -> Option<Seq<char>> {
        self.password.deep_view()
    }

    pub closed spec fn spec_ip(&self) -> Seq<char> {
        self.ip_address@
    }

    pub closed spec fn spec_port(&self) -> Seq<char> {
        self.port@
    }

    pub fn with_user(self, val: Option<String>) -> (r: Self)
        ensures
            r.spec_user() == val.deep_view(),
            r.spec_password() == self.spec_password(),
            r.spec_ip() == self.spec_ip(),
            r.spec_port() == self.spec_port(),
    {
        Self { user: val, password: self.password, ip_address: self.ip_address, port: self.port }
    }

    pub fn with_password(self, val: Option<String>) -> (r: Self)
        ensures
            r.spec_password() == val.deep_view(),
            r.spec_user() == self.spec_user(),
            r.spec_ip() == self.spec_ip(),
            r.spec_port() == self.spec_port(),
    {
        Self { user: self.user, password: val, ip_address: self.ip_address, port: self.port }
    }

    pub fn with_ip_address(self, val: String) -> (r: Self)
        ensures
            r.spec_ip() == val@,
            r.spec_user() == self.spec_user(),
            r.spec_password() == self.spec_password(),
            r.spec_port() == self.spec_port(),
    {
        Self { user: self.user, password: self.password, ip_address: val, port: self.port }
    }

    pub fn with_port(self, val: String) -> (r: Self)
        ensures
            r.spec_port() == val@,
            r.spec_user() == self.spec_user(),
            r.spec_password() == self.spec_password(),
            r.spec_ip() == self.spec_ip(),
    {
        Self { user: self.user, password: self.password, ip_address: self.ip_address, port: val }
    }

    /// Assembles and parses the session address. An unset host is rejected
    /// before any parsing; otherwise the outcome is exactly that of parsing
    /// the assembled text.
    pub fn build(self) -> (r: Result<Url, SessionError>)
        ensures
            self.spec_ip().len() == 0 ==> (r matches Err(e) && e matches SessionError::UnsetParameter(m)
                && m@ == "Necessary parameter unset: ip_address"@),
            self.spec_ip().len() > 0 ==> {
                let text = session_url_chars(
                    self.spec_user(),
                    self.spec_password(),
                    self.spec_ip(),
                    self.spec_port(),
                );
                &&& (r is Ok <==> url_parse_ok(text))
                &&& !url_parse_ok(text) ==> (r matches Err(e) && e == SessionError::UrlParseError)
            },
    {
        if self.ip_address.as_str().is_empty() {
            return Err(
                SessionError::UnsetParameter(
                    String::from_str("Necessary parameter unset: ip_address"),
                ),
            );
        }
        let mut text = String::from_str("rtsp://");
        text.append(self.ip_address.as_str());
        text.append(":");
        text.append(self.port.as_str());
        match (&self.user, &self.password) {
            (Some(user), Some(pass)) => {
                text.append("/user=");
                text.append(user.as_str());
                text.append("&password=");
                text.append(pass.as_str());
                proof {
                    assert(text@ =~= session_url_chars(
                        self.spec_user(),
                        self.spec_password(),
                        self.spec_ip(),
                        self.spec_port(),
                    ));
                }
            },
            _ => {
                proof {
                    assert(text@ =~= session_url_chars(
                        self.spec_user(),
                        self.spec_password(),
                        self.spec_ip(),
                        self.spec_port(),
                    ));
                }
            },
        }
        match parse_url(text.as_str()) {
            Ok(u) => Ok(u),
            Err(_) => Err(SessionError::UrlParseError),
        }
    }
}

impl Default for SessionUrlBuilder {
    /// A fresh builder: no credentials, no host, and the protocol's customary
    /// port.
    fn default() -> (r: Self)
        ensures
            r.spec_user() is None,
            r.spec_password() is None,
            r.spec_ip().len() == 0,
            r.spec_port() == "554"@,
    {
        Self {
            user: None,
            password: None,
            ip_address: String::new(),
            port: String::from_str("554"),
        }
    }
}

} // verus!
