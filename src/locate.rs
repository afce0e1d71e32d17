//! Where a Chrome installation and its user data live on a Windows host.
//! The caller probes the disk; these functions say which paths to probe
//! and what the answers mean.
use crate::cookie::CookieError;
use vstd::prelude::*;

verus! {

/// The user data directory below the per-user local application data root.
pub open spec fn user_data_suffix() -> Seq<char> {
    "\\Google\\Chrome\\User Data"@
}

/// The per-user executable below the local application data root.
pub open spec fn user_executable_suffix() -> Seq<char> {
    "\\Google\\Chrome\\Application\\chrome.exe"@
}

/// The system-wide executables, tried in this order.
pub open spec fn system_executables() -> Seq<Seq<char>> {
    seq![
        "C:\\Program Files\\Google\\Chrome\\Application\\chrome.exe"@,
        "C:\\Program Files (x86)\\Google\\Chrome\\Application\\chrome.exe"@,
    ]
}

/// The executables to probe, in order: the per-user one where the local
/// application data root is known, then the system-wide ones.
pub open spec fn executable_paths(local_app_data: Option<&str>) -> Seq<Seq<char>> {
    match local_app_data {
        Some(l) => seq![l@ + user_executable_suffix()] + system_executables(),
        None => system_executables(),
    }
}

/// The user data directory below the local application data root.
pub fn user_data_dir_under(local_app_data: &str) -> (r: String)
    ensures
        r@ == local_app_data@ + user_data_suffix(),
{
    let mut r = local_app_data.to_string();
    r.append("\\Google\\Chrome\\User Data");
    r
}

/// The executables to probe, in the order in which they are tried.
pub fn executable_candidates(local_app_data: Option<&str>) -> (r: Vec<String>)
    ensures
        r@.len() == executable_paths(local_app_data).len(),
        forall|i: int|
            0 <= i < r@.len() ==> #[trigger] r@[i]@ == executable_paths(local_app_data)[i],
{
    let mut r: Vec<String> = Vec::new();
    if let Some(l) = local_app_data {
        let mut p = l.to_string();
        p.append("\\Google\\Chrome\\Application\\chrome.exe");
        r.push(p);
    }
    r.push("C:\\Program Files\\Google\\Chrome\\Application\\chrome.exe".to_string());
    r.push("C:\\Program Files (x86)\\Google\\Chrome\\Application\\chrome.exe".to_string());
    r
}

/// The user data directory, given the local application data root (where
/// it is known) and whether the directory below it exists. Without a root
/// there is no profile to find either.
pub fn get_chrome_user_data_dir(local_app_data: Option<&str>, dir_exists: bool) -> (r: Result<
    String,
    CookieError,
>)
    ensures
        match local_app_data {
            None => r == Err::<String, CookieError>(CookieError::ChromeNotFound),
            Some(l) => match r {
                Ok(p) => dir_exists && p@ == l@ + user_data_suffix(),
                Err(e) => !dir_exists && e == CookieError::ChromeNotFound,
            },
        },
{
    match local_app_data {
        None => Err(CookieError::ChromeNotFound),
        Some(l) => {
            if dir_exists {
                Ok(user_data_dir_under(l))
            } else {
                Err(CookieError::ChromeNotFound)
            }
        },
    }
}

/// The first probed path that exists, in probing order.
pub fn find_chrome_executable(probed: &Vec<(String, bool)>) -> (r: Result<String, CookieError>)
    ensures
        match r {
            Ok(p) => exists|i: int|
                0 <= i < probed@.len() && (#[trigger] probed@[i]).1 && p@ == probed@[i].0@ && forall|
                    j: int,
                | 0 <= j < i ==> !(#[trigger] probed@[j]).1,
            Err(e) => e == CookieError::ChromeNotFound && forall|i: int|
                0 <= i < probed@.len() ==> !(#[trigger] probed@[i]).1,
        },
{
    let mut i: usize = 0;
    while i < probed.len()
        invariant
            i <= probed@.len(),
            forall|j: int| 0 <= j < i ==> !(#[trigger] probed@[j]).1,
        decreases probed@.len() - i,
    {
        if probed[i].1 {
            return Ok(probed[i].0.clone());
        }
        i += 1;
    }
    Err(CookieError::ChromeNotFound)
}

} // verus!
