//! The small commands that the user interface offers beside the extraction.
use crate::cookie::UserInfo;
use vstd::prelude::*;

verus! {

/// The greeting for `name`.
pub open spec fn greeting(name: Seq<char>) -> Seq<char> {
    "你好，"@ + name + "！来自 Rust 后端的问候。"@
}

/// The greeting for `name`.
pub fn greet(name: &str) -> (r: String)
    ensures
        r@ == greeting(name@),
{
    let mut r = "你好，".to_string();
    r.append(name);
    r.append("！来自 Rust 后端的问候。");
    r
}

/// The fixed demonstration user.
pub fn get_user_info() -> (r: UserInfo)
    ensures
        r.name@ == "测试用户"@,
        r.age == 18,
{
    UserInfo { name: "测试用户".to_string(), age: 18 }
}

/// The lowercase hexadecimal digits.
pub open spec fn hex_alphabet() -> Seq<char> {
    seq!['0', '1', '2', '3', '4', '5', '6', '7', '8', '9', 'a', 'b', 'c', 'd', 'e', 'f']
}

/// The last `n` hexadecimal digits of `h`, most significant first.
pub open spec fn hex_digits(h: nat, n: nat) -> Seq<char>
    decreases n,
{
    if n == 0 {
        Seq::empty()
    } else {
        hex_digits(h / 16, (n - 1) as nat).push(hex_alphabet()[(h % 16) as int])
    }
}

/// A machine code: the 64-bit fingerprint `hash` as sixteen lowercase
/// hexadecimal digits, zero-padded, most significant first.
pub fn machine_code_hex(hash: u64) -> (r: String)
    ensures
        r@ == hex_digits(hash as nat, 16),
{
    let alphabet = vec!['0', '1', '2', '3', '4', '5', '6', '7', '8', '9', 'a', 'b', 'c', 'd', 'e', 'f'];
    let mut v: u64 = hash;
    let mut out: Vec<char> = Vec::new();
    let mut i: u64 = 0;
    while i < 16
        invariant
            i <= 16,
            alphabet@ == hex_alphabet(),
            hex_digits(hash as nat, 16) == hex_digits(v as nat, (16 - i) as nat) + out@,
        decreases 16 - i,
    {
        let d = alphabet[(v % 16) as usize];
        proof {
            assert(hex_digits(v as nat, (16 - i) as nat) == hex_digits(
                (v / 16) as nat,
                (16 - i - 1) as nat,
            ).push(d));
        }
        out.insert(0, d);
        assert(hex_digits(hash as nat, 16) =~= hex_digits((v / 16) as nat, (16 - i - 1) as nat)
            + out@);
        v = v / 16;
        i += 1;
    }
    assert(hex_digits(v as nat, 0) + out@ =~= out@);
    crate::domain::string_of(&out)
}

} // verus!
