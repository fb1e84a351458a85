//! Text in names, paths and console output.

use std::path::Path;
use vstd::prelude::*;
use vstd::string::*;
use vstd::utf8::{decode_utf8, valid_utf8};

verus! {

/// The text of an optional string.
pub open spec fn text_of(s: Option<String>) -> Option<Seq<char>> {
    match s {
        Some(t) => Some(t@),
        None => None,
    }
}

/// `String::from_utf8` of the standard library: the bytes become a string exactly when they are
/// UTF-8, and its characters are the ones that they encode.
#[verifier::external_body]
pub(crate) fn string_from_utf8(bytes: Vec<u8>) -> (s: Option<String>)
    ensures
        s is Some <==> valid_utf8(bytes@),
        s matches Some(t) ==> t@ == decode_utf8(bytes@),
{
    String::from_utf8(bytes).ok()
}

/// `String::push` of the standard library: appends one character.
#[verifier::external_body]
pub(crate) fn string_push(s: &mut String, c: char)
    ensures
        final(s)@ == old(s)@.push(c),
{
    s.push(c);
}

/// `marker` occurs in `text`.
pub open spec fn occurs_in(marker: Seq<char>, text: Seq<char>) -> bool {
    exists|i: int|
        0 <= i <= text.len() - marker.len() && #[trigger] text.subrange(i, i + marker.len())
            == marker
}

/// `str::contains` of the standard library with a string pattern: whether the pattern is a
/// substring.
#[verifier::external_body]
pub(crate) fn str_contains(text: &str, marker: &str) -> (found: bool)
    ensures
        found == occurs_in(marker@, text@),
{
    text.contains(marker)
}

/// The digits of `n` to the base sixteen, lower case and without leading zeros.
pub open spec fn hex_digits(n: nat) -> Seq<char>
    decreases n,
{
    if n < 16 {
        seq![hex_digit(n)]
    } else {
        hex_digits(n / 16).push(hex_digit(n % 16))
    }
}

/// The digit for a value below sixteen.
pub open spec fn hex_digit(n: nat) -> char {
    if n < 10 {
        (n + 48) as char
    } else {
        (n + 87) as char
    }
}

fn digit(n: u8) -> (c: char)
    requires
        n < 16,
    ensures
        c == hex_digit(n as nat),
{
    if n < 10 {
        (n + 48) as char
    } else {
        (n + 87) as char
    }
}

/// Appends the hexadecimal form of `n`.
pub fn push_hex(s: &mut String, n: u64)
    ensures
        final(s)@ == old(s)@ + hex_digits(n as nat),
    decreases n,
{
    let ghost before = s@;
    if n >= 16 {
        push_hex(s, n / 16);
    }
    string_push(s, digit((n % 16) as u8));
    assert(s@ =~= before + hex_digits(n as nat));
}

/// The digits of `n` to the base ten, without leading zeros.
pub open spec fn decimal_digits(n: nat) -> Seq<char>
    decreases n,
{
    if n < 10 {
        seq![hex_digit(n)]
    } else {
        decimal_digits(n / 10).push(hex_digit(n % 10))
    }
}

/// Appends the decimal form of `n`.
pub fn push_decimal(s: &mut String, n: u64)
    ensures
        final(s)@ == old(s)@ + decimal_digits(n as nat),
    decreases n,
{
    let ghost before = s@;
    if n >= 10 {
        push_decimal(s, n / 10);
    }
    string_push(s, digit((n % 10) as u8));
    assert(s@ =~= before + decimal_digits(n as nat));
}

/// The Unix rule for a path that is looked up from a directory: an absolute path replaces the
/// directory, any other is appended behind one separator.
pub open spec fn joined(base: Seq<char>, path: Seq<char>) -> Seq<char> {
    if is_absolute(path) {
        path
    } else if base.len() == 0 || base.last() == '/' {
        base + path
    } else {
        base.push('/') + path
    }
}

/// A Unix path is absolute when it starts at the root.
pub open spec fn is_absolute(path: Seq<char>) -> bool {
    path.len() > 0 && path[0] == '/'
}

/// The rules that the paths of a host follow.
#[derive(Clone, Copy, Debug, PartialEq, Eq, Structural)]
pub enum PathRules {
    /// Those of Unix.
    Unix,
    /// Those of another host, which the standard library knows.
    Other,
}

/// `Path::is_absolute` of the standard library, by the rules of the host. They differ from host to
/// host, and nothing is claimed of the result.
#[verifier::external_body]
fn host_is_absolute(path: &str) -> (b: bool) {
    Path::new(path).is_absolute()
}

/// `Path::join` of the standard library, by the rules of the host. They differ from host to host,
/// and nothing is claimed of the result.
#[verifier::external_body]
fn host_join(base: &str, path: &str) -> (s: String) {
    Path::new(base).join(path).to_string_lossy().into_owned()
}

/// Tells whether a path is absolute. The rules are to be those of the host.
pub fn path_is_absolute(path: &str, rules: PathRules) -> (b: bool)
    ensures
        rules == PathRules::Unix ==> b == is_absolute(path@),
{
    match rules {
        PathRules::Unix => path.unicode_len() > 0 && path.get_char(0) == '/',
        PathRules::Other => host_is_absolute(path),
    }
}

/// Looks a path up from a directory. The rules are to be those of the host.
pub fn join_path(base: &str, path: &str, rules: PathRules) -> (s: String)
    ensures
        rules == PathRules::Unix ==> s@ == joined(base@, path@),
{
    match rules {
        PathRules::Unix => join_unix_path(base, path),
        PathRules::Other => host_join(base, path),
    }
}

fn join_unix_path(base: &str, path: &str) -> (s: String)
    ensures
        s@ == joined(base@, path@),
{
    if path_is_absolute(path, PathRules::Unix) {
        return path.to_owned();
    }
    let mut s = base.to_owned();
    let n: usize = base.unicode_len();
    if n > 0 && base.get_char(n - 1) != '/' {
        string_push(&mut s, '/');
    }
    s.append(path);
    s
}

/// The value of a digit.
pub open spec fn digit_value(c: char) -> int {
    if '0' <= c <= '9' {
        c as int - '0' as int
    } else {
        c as int - 'a' as int + 10
    }
}

/// The number that some digits stand for.
pub open spec fn digits_value(digits: Seq<char>, base: int) -> int
    decreases digits.len(),
{
    if digits.len() == 0 {
        0
    } else {
        base * digits_value(digits.drop_last(), base) + digit_value(digits.last())
    }
}

/// A number that was written in decimal reads back as the number: it is written in decimal digits,
/// with no zero in front.
pub proof fn lemma_decimal_reads_back(n: nat)
    ensures
        digits_value(decimal_digits(n), 10) == n,
        decimal_digits(n).len() > 0,
        forall|i: int| 0 <= i < decimal_digits(n).len() ==> '0' <= #[trigger] decimal_digits(n)[i] <= '9',
        decimal_digits(n).len() > 1 ==> decimal_digits(n)[0] != '0',
    decreases n,
{
    let all = decimal_digits(n);
    reveal_with_fuel(digits_value, 2);
    if n < 10 {
        assert(all.drop_last() =~= Seq::empty());
    } else {
        let front = decimal_digits(n / 10);
        lemma_decimal_reads_back(n / 10);
        assert(all.drop_last() =~= front);
        assert(all[0] == front[0]);
        if front.len() == 1 {
            assert(front.drop_last() =~= Seq::empty());
        }
        assert forall|i: int| 0 <= i < all.len() implies '0' <= #[trigger] all[i] <= '9' by {
            if i < front.len() {
                assert(all[i] == front[i]);
            }
        }
    }
}

/// A number that was written in hexadecimal reads back as the number: it is written in lower-case
/// hexadecimal digits, with no zero in front.
pub proof fn lemma_hex_reads_back(n: nat)
    ensures
        digits_value(hex_digits(n), 16) == n,
        hex_digits(n).len() > 0,
        forall|i: int|
            0 <= i < hex_digits(n).len() ==> ('0' <= #[trigger] hex_digits(n)[i] <= '9' || 'a'
                <= hex_digits(n)[i] <= 'f'),
        hex_digits(n).len() > 1 ==> hex_digits(n)[0] != '0',
    decreases n,
{
    let all = hex_digits(n);
    reveal_with_fuel(digits_value, 2);
    if n < 16 {
        assert(all.drop_last() =~= Seq::empty());
    } else {
        let front = hex_digits(n / 16);
        lemma_hex_reads_back(n / 16);
        assert(all.drop_last() =~= front);
        assert(all[0] == front[0]);
        if front.len() == 1 {
            assert(front.drop_last() =~= Seq::empty());
        }
        assert forall|i: int| 0 <= i < all.len() implies ('0' <= #[trigger] all[i] <= '9' || 'a'
            <= all[i] <= 'f') by {
            if i < front.len() {
                assert(all[i] == front[i]);
            }
        }
    }
}

/// A path that is looked up keeps all of what it was looked up from and all of itself, with exactly
/// one separator in between unless there is one already or nothing to separate; only a path that
/// starts at the root is taken alone.
pub proof fn lemma_joined_path_keeps_both(base: Seq<char>, path: Seq<char>)
    ensures
        is_absolute(path) <==> path.len() > 0 && path[0] == '/',
        path.len() > 0 && path[0] == '/' ==> joined(base, path) == path,
        !(path.len() > 0 && path[0] == '/') ==> {
            let between = if base.len() == 0 || base[base.len() - 1] == '/' {
                0int
            } else {
                1int
            };
            let all = joined(base, path);
            &&& all.len() == base.len() + between + path.len()
            &&& all.take(base.len() as int) == base
            &&& all.skip(base.len() + between) == path
            &&& between == 1 ==> all[base.len() as int] == '/'
        },
{
    let all = joined(base, path);
    if !(path.len() > 0 && path[0] == '/') {
        assert(all.take(base.len() as int) =~= base);
        assert(all.skip(all.len() - path.len()) =~= path);
    }
}

/// A marker is found wherever it stands in a text, and found nowhere else.
pub proof fn lemma_marker_is_found_where_it_stands(
    before: Seq<char>,
    marker: Seq<char>,
    after: Seq<char>,
    text: Seq<char>,
)
    ensures
        occurs_in(marker, before + marker + after),
        occurs_in(marker, text) ==> exists|i: int|
            0 <= i && i + marker.len() <= text.len() && text == #[trigger] text.take(i) + marker
                + text.skip(i + marker.len()),
{
    let all = before + marker + after;
    let at = before.len() as int;
    assert(all.subrange(at, at + marker.len()) =~= marker);
    if occurs_in(marker, text) {
        let i = choose|i: int|
            0 <= i <= text.len() - marker.len() && #[trigger] text.subrange(i, i + marker.len())
                == marker;
        assert(text =~= text.take(i) + text.subrange(i, i + marker.len()) + text.skip(
            i + marker.len(),
        ));
    }
}

} // verus!
