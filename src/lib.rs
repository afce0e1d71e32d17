//! Reading the cookies of one domain out of a locally installed Chrome, by
//! driving a throwaway headless instance over the DevTools protocol: the
//! domain rules, the mapping of protocol records, and the decisions of the
//! extraction pipeline.
pub mod cookie;
pub mod demo;
pub mod domain;
pub mod expiry;
pub mod locate;
pub mod pipeline;
pub mod select;

pub use cookie::{Cookie, CookieError, UserInfo};
pub use demo::{get_user_info, greet, machine_code_hex};
pub use domain::{domain_matches, extract_domain};
pub use expiry::expiry_from_bits;
pub use locate::{
    executable_candidates, find_chrome_executable, get_chrome_user_data_dir, user_data_dir_under,
};
pub use pipeline::{Action, Event, Extraction, Phase, SessionConfig};
pub use select::{collect_result, cookie_from_raw, select_cookies, sort_by_name, RawCookie};
