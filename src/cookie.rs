//! The records and errors that the extraction hands to its callers.
use vstd::prelude::*;

verus! {

/// One cookie as the browser reports it. Produced by the extraction and
/// never changed after that.
#[derive(Debug, Clone, PartialEq, Eq)]
pub struct Cookie {
    pub name: String,
    pub value: String,
    /// As the browser reports it; it may begin with a dot.
    pub domain: String,
    pub path: String,
    /// Expiry in whole seconds since the epoch; `None` for a session cookie.
    pub expires: Option<i64>,
    pub is_secure: bool,
    pub is_http_only: bool,
}

/// Why an extraction gave no cookies.
#[derive(Debug, Clone, PartialEq, Eq)]
pub enum CookieError {
    /// No browser installation or profile directory was found.
    ChromeNotFound,
    /// The browser could not be configured or started.
    BrowserLaunchFailed(String),
    /// The session worked, but no cookie applies to the requested domain.
    NoCookies,
    /// Any other protocol or transport failure.
    Other(String),
}

/// A demonstration record for the user interface.
#[derive(Debug, Clone, PartialEq, Eq)]
pub struct UserInfo {
    pub name: String,
    pub age: u32,
}

pub open spec fn message_of(e: CookieError) -> Seq<char> {
    match e {
        CookieError::ChromeNotFound => "未检测到 Chrome 浏览器"@,
        CookieError::BrowserLaunchFailed(msg) => "浏览器启动失败: "@ + msg@,
        CookieError::NoCookies => "该域名下没有 Cookie"@,
        CookieError::Other(msg) => msg@,
    }
}

impl CookieError {
    /// The text shown to a person for this error.
    pub fn message(&self) -> (r: String)
        ensures
            r@ == message_of(*self),
    {
        match self {
            CookieError::ChromeNotFound => "未检测到 Chrome 浏览器".to_string(),
            CookieError::BrowserLaunchFailed(msg) => {
                let mut s = "浏览器启动失败: ".to_string();
                s.append(msg.as_str());
                s
            },
            CookieError::NoCookies => "该域名下没有 Cookie".to_string(),
            CookieError::Other(msg) => msg.clone(),
        }
    }
}

} // verus!
