//! The wire codec: one commit event per broker message, as UTF-8 JSON.
//!
//! The encoder emits one canonical JSON object with the schema field
//! names, in declaration order, with strings escaped as JSON demands.
//! The decoder accepts exactly that canonical form and fails on anything
//! else. Encoding followed by decoding reproduces every field, including
//! multi-line unicode text; see `lemma_decode_encode`.

use vstd::prelude::*;

verus! {

use vstd::string::StrSliceExecFns;
use vstd::string::StringExecFns;
use crate::commit::{CommitInfo, CommitView};
use crate::errors::GitFriendsError;
use crate::strutil::{push_str_chars, string_from_chars};

/// The character for one decimal digit value.
pub open spec fn dec_digit(n: nat) -> char {
    if n == 0 { '0' }
    else if n == 1 { '1' }
    else if n == 2 { '2' }
    else if n == 3 { '3' }
    else if n == 4 { '4' }
    else if n == 5 { '5' }
    else if n == 6 { '6' }
    else if n == 7 { '7' }
    else if n == 8 { '8' }
    else { '9' }
}

pub open spec fn is_digit(c: char) -> bool {
    48 <= c as u32 <= 57
}

pub open spec fn digit_val(c: char) -> nat {
    (c as u32 - 48) as nat
}

/// The character for one hexadecimal digit value, lower case.
pub open spec fn hex_digit(n: nat) -> char {
    if n < 10 { dec_digit(n) }
    else if n == 10 { 'a' }
    else if n == 11 { 'b' }
    else if n == 12 { 'c' }
    else if n == 13 { 'd' }
    else if n == 14 { 'e' }
    else { 'f' }
}

pub open spec fn is_hex_digit(c: char) -> bool {
    is_digit(c) || 97 <= c as u32 <= 102
}

pub open spec fn hex_val(c: char) -> nat {
    if is_digit(c) { digit_val(c) } else { (c as u32 - 87) as nat }
}

/// The JSON escape of one character: quotes and backslashes are escaped,
/// the common control characters get their short forms, other control
/// characters a `\u00..` form, and everything else stands for itself.
pub open spec fn esc_char(c: char) -> Seq<char> {
    if c == '"' { seq!['\\', '"'] }
    else if c == '\\' { seq!['\\', '\\'] }
    else if c == '\n' { seq!['\\', 'n'] }
    else if c == '\r' { seq!['\\', 'r'] }
    else if c == '\t' { seq!['\\', 't'] }
    else if c == '\u{8}' { seq!['\\', 'b'] }
    else if c == '\u{c}' { seq!['\\', 'f'] }
    else if (c as u32) < 32 {
        seq!['\\', 'u', '0', '0', hex_digit((c as u32 / 16) as nat), hex_digit((c as u32 % 16) as nat)]
    } else {
        seq![c]
    }
}

/// The JSON escape of a string body.
pub open spec fn esc_str(s: Seq<char>) -> Seq<char>
    decreases s.len(),
{
    if s.len() == 0 {
        Seq::empty()
    } else {
        esc_str(s.drop_last()) + esc_char(s.last())
    }
}

/// The decimal digits of a natural number, most significant first.
pub open spec fn dec_digits(n: nat) -> Seq<char>
    decreases n,
{
    if n < 10 {
        seq![dec_digit(n)]
    } else {
        dec_digits(n / 10) + seq![dec_digit(n % 10)]
    }
}

/// The decimal form of an integer, with a sign for negative values.
pub open spec fn int_chars(t: int) -> Seq<char> {
    if t < 0 {
        seq!['-'] + dec_digits((-t) as nat)
    } else {
        dec_digits(t as nat)
    }
}

/// A string body in quotes, escaped.
pub open spec fn quoted(s: Seq<char>) -> Seq<char> {
    seq!['"'] + esc_str(s) + seq!['"']
}

/// The comma-separated quoted elements of a file list, without brackets.
pub open spec fn files_chars(fs: Seq<Seq<char>>) -> Seq<char>
    decreases fs.len(),
{
    if fs.len() == 0 {
        Seq::empty()
    } else if fs.len() == 1 {
        quoted(fs[0])
    } else {
        quoted(fs[0]) + seq![','] + files_chars(fs.drop_first())
    }
}

pub open spec fn lit_hash() -> Seq<char> { "{\"hash\":\""@ }

pub open spec fn lit_short_hash() -> Seq<char> { ",\"short_hash\":\""@ }

pub open spec fn lit_author_name() -> Seq<char> { ",\"author_name\":\""@ }

pub open spec fn lit_author_email() -> Seq<char> { ",\"author_email\":\""@ }

pub open spec fn lit_committer_name() -> Seq<char> { ",\"committer_name\":\""@ }

pub open spec fn lit_committer_email() -> Seq<char> { ",\"committer_email\":\""@ }

pub open spec fn lit_message() -> Seq<char> { ",\"message\":\""@ }

pub open spec fn lit_timestamp() -> Seq<char> { ",\"timestamp\":"@ }

pub open spec fn lit_repository_url() -> Seq<char> { ",\"repository_url\":\""@ }

pub open spec fn lit_branch() -> Seq<char> { ",\"branch\":\""@ }

pub open spec fn lit_files_changed() -> Seq<char> { ",\"files_changed\":["@ }

/// The canonical wire form of a commit event.
pub open spec fn spec_encode(c: CommitView) -> Seq<char> {
    lit_hash() + esc_str(c.hash) + seq!['"']
        + lit_short_hash() + esc_str(c.short_hash) + seq!['"']
        + lit_author_name() + esc_str(c.author_name) + seq!['"']
        + lit_author_email() + esc_str(c.author_email) + seq!['"']
        + lit_committer_name() + esc_str(c.committer_name) + seq!['"']
        + lit_committer_email() + esc_str(c.committer_email) + seq!['"']
        + lit_message() + esc_str(c.message) + seq!['"']
        + lit_timestamp() + int_chars(c.timestamp)
        + lit_repository_url() + esc_str(c.repository_url) + seq!['"']
        + lit_branch() + esc_str(c.branch) + seq!['"']
        + lit_files_changed() + files_chars(c.files_changed) + seq![']'] + seq!['}']
}

/// The character for one decimal digit.
fn dec_digit_char(d: u64) -> (r: char)
    requires
        d < 10,
    ensures
        r == dec_digit(d as nat),
{
    match d {
        0 => '0',
        1 => '1',
        2 => '2',
        3 => '3',
        4 => '4',
        5 => '5',
        6 => '6',
        7 => '7',
        8 => '8',
        _ => '9',
    }
}

/// The character for one hexadecimal digit, lower case.
fn hex_digit_char(d: u32) -> (r: char)
    requires
        d < 16,
    ensures
        r == hex_digit(d as nat),
{
    match d {
        0 => '0',
        1 => '1',
        2 => '2',
        3 => '3',
        4 => '4',
        5 => '5',
        6 => '6',
        7 => '7',
        8 => '8',
        9 => '9',
        10 => 'a',
        11 => 'b',
        12 => 'c',
        13 => 'd',
        14 => 'e',
        _ => 'f',
    }
}

/// Appends the decimal digits of `n`, most significant first.
pub fn push_u64_decimal(v: &mut Vec<char>, n: u64)
    ensures
        final(v)@ == old(v)@ + dec_digits(n as nat),
    decreases n,
{
    if n < 10 {
        v.push(dec_digit_char(n));
        assert(final(v)@ =~= old(v)@ + dec_digits(n as nat));
    } else {
        push_u64_decimal(v, n / 10);
        v.push(dec_digit_char(n % 10));
        assert(final(v)@ =~= old(v)@ + dec_digits(n as nat));
    }
}

/// Appends the JSON escape of the string body `s`.
fn push_esc(v: &mut Vec<char>, s: &str)
    ensures
        final(v)@ == old(v)@ + esc_str(s@),
{
    let len = s.unicode_len();
    let mut i: usize = 0;
    assert(v@ =~= old(v)@ + esc_str(s@.subrange(0, 0)));
    while i < len
        invariant
            len == s@.len(),
            i <= len,
            v@ == old(v)@ + esc_str(s@.subrange(0, i as int)),
        decreases len - i,
    {
        let c = s.get_char(i);
        if c == '"' {
            v.push('\\');
            v.push('"');
        } else if c == '\\' {
            v.push('\\');
            v.push('\\');
        } else if c == '\n' {
            v.push('\\');
            v.push('n');
        } else if c == '\r' {
            v.push('\\');
            v.push('r');
        } else if c == '\t' {
            v.push('\\');
            v.push('t');
        } else if c == '\u{8}' {
            v.push('\\');
            v.push('b');
        } else if c == '\u{c}' {
            v.push('\\');
            v.push('f');
        } else if (c as u32) < 32 {
            let code = c as u32;
            v.push('\\');
            v.push('u');
            v.push('0');
            v.push('0');
            v.push(hex_digit_char(code / 16));
            v.push(hex_digit_char(code % 16));
        } else {
            v.push(c);
        }
        proof {
            assert(s@.subrange(0, i + 1 as int).drop_last() =~= s@.subrange(0, i as int));
            assert(v@ =~= old(v)@ + esc_str(s@.subrange(0, i + 1 as int)));
        }
        i = i + 1;
    }
    assert(s@.subrange(0, len as int) =~= s@);
}

/// Appends the decimal form of `t`, with a sign for negative values.
fn push_i64_decimal(v: &mut Vec<char>, t: i64)
    ensures
        final(v)@ == old(v)@ + int_chars(t as int),
{
    if t >= 0 {
        push_u64_decimal(v, t as u64);
    } else {
        let mag: u64 = if t == i64::MIN {
            9223372036854775808u64
        } else {
            (-t) as u64
        };
        assert(mag as nat == (-(t as int)) as nat);
        v.push('-');
        push_u64_decimal(v, mag);
        assert(final(v)@ =~= old(v)@ + int_chars(t as int));
    }
}

/// Appends the bracket-free body of the file list.
fn push_files(v: &mut Vec<char>, fs: &Vec<String>)
    ensures
        final(v)@ == old(v)@ + files_chars(fs@.map_values(|f: String| f@)),
{
    let ghost fsv = fs@.map_values(|f: String| f@);
    let n = fs.len();
    let mut k: usize = 0;
    proof {
        assert(fsv.skip(0) =~= fsv);
    }
    while k < n
        invariant
            n == fs@.len(),
            fsv == fs@.map_values(|f: String| f@),
            k <= n,
            v@ + files_chars(fsv.skip(k as int)) == old(v)@ + files_chars(fsv),
        decreases n - k,
    {
        let ghost rem = fsv.skip(k as int);
        proof {
            assert(rem[0] == fsv[k as int]);
            assert(rem.drop_first() =~= fsv.skip(k + 1 as int));
        }
        v.push('"');
        push_esc(v, fs[k].as_str());
        v.push('"');
        if k + 1 < n {
            v.push(',');
            assert(v@ + files_chars(fsv.skip(k + 1 as int)) =~= old(v)@ + files_chars(fsv));
        } else {
            assert(fsv.skip(k + 1 as int).len() == 0);
            assert(v@ + files_chars(fsv.skip(k + 1 as int)) =~= old(v)@ + files_chars(fsv));
        }
        k = k + 1;
    }
    assert(files_chars(fsv.skip(n as int)) =~= Seq::<char>::empty());
    assert(final(v)@ =~= final(v)@ + files_chars(fsv.skip(n as int)));
}

/// Encodes one commit event into its canonical wire form.
pub fn encode_commit(c: &CommitInfo) -> (r: String)
    ensures
        r@ == spec_encode(c@),
{
    let mut v: Vec<char> = Vec::new();
    push_str_chars(&mut v, "{\"hash\":\"");
    push_esc(&mut v, c.hash.as_str());
    v.push('"');
    push_str_chars(&mut v, ",\"short_hash\":\"");
    push_esc(&mut v, c.short_hash.as_str());
    v.push('"');
    push_str_chars(&mut v, ",\"author_name\":\"");
    push_esc(&mut v, c.author_name.as_str());
    v.push('"');
    push_str_chars(&mut v, ",\"author_email\":\"");
    push_esc(&mut v, c.author_email.as_str());
    v.push('"');
    push_str_chars(&mut v, ",\"committer_name\":\"");
    push_esc(&mut v, c.committer_name.as_str());
    v.push('"');
    push_str_chars(&mut v, ",\"committer_email\":\"");
    push_esc(&mut v, c.committer_email.as_str());
    v.push('"');
    push_str_chars(&mut v, ",\"message\":\"");
    push_esc(&mut v, c.message.as_str());
    v.push('"');
    push_str_chars(&mut v, ",\"timestamp\":");
    push_i64_decimal(&mut v, c.timestamp);
    push_str_chars(&mut v, ",\"repository_url\":\"");
    push_esc(&mut v, c.repository_url.as_str());
    v.push('"');
    push_str_chars(&mut v, ",\"branch\":\"");
    push_esc(&mut v, c.branch.as_str());
    v.push('"');
    push_str_chars(&mut v, ",\"files_changed\":[");
    push_files(&mut v, &c.files_changed);
    v.push(']');
    v.push('}');
    assert(v@ =~= spec_encode(c@));
    string_from_chars(&v)
}

/// The rest of `s` after the expected literal, if `s` starts with it.
pub open spec fn spec_expect(s: Seq<char>, lit: Seq<char>) -> Option<Seq<char>> {
    if crate::strutil::spec_has_prefix(s, lit) {
        Some(s.skip(lit.len() as int))
    } else {
        None
    }
}

/// Unescapes a string body up to and including its closing quote,
/// extending `acc`; returns the body and the rest after the quote.
pub open spec fn unesc_from(s: Seq<char>, acc: Seq<char>) -> Option<(Seq<char>, Seq<char>)>
    decreases s.len(),
{
    if s.len() == 0 {
        None
    } else if s[0] == '"' {
        Some((acc, s.drop_first()))
    } else if s[0] == '\\' {
        if s.len() < 2 {
            None
        } else if s[1] == '"' {
            unesc_from(s.skip(2), acc.push('"'))
        } else if s[1] == '\\' {
            unesc_from(s.skip(2), acc.push('\\'))
        } else if s[1] == 'n' {
            unesc_from(s.skip(2), acc.push('\n'))
        } else if s[1] == 'r' {
            unesc_from(s.skip(2), acc.push('\r'))
        } else if s[1] == 't' {
            unesc_from(s.skip(2), acc.push('\t'))
        } else if s[1] == 'b' {
            unesc_from(s.skip(2), acc.push('\u{8}'))
        } else if s[1] == 'f' {
            unesc_from(s.skip(2), acc.push('\u{c}'))
        } else if s[1] == 'u' {
            if s.len() < 6 {
                None
            } else if s[2] == '0' && s[3] == '0' && is_hex_digit(s[4]) && is_hex_digit(s[5]) {
                unesc_from(s.skip(6), acc.push((((hex_val(s[4]) * 16 + hex_val(s[5])) as u8) as char)))
            } else {
                None
            }
        } else {
            None
        }
    } else {
        unesc_from(s.drop_first(), acc.push(s[0]))
    }
}

/// A successful unescape consumes at least the closing quote.
pub proof fn lemma_unesc_shrinks(s: Seq<char>, acc: Seq<char>)
    ensures
        unesc_from(s, acc) matches Some(p) ==> p.1.len() < s.len(),
    decreases s.len(),
{
    if s.len() == 0 {
    } else if s[0] == '"' {
    } else if s[0] == '\\' {
        if s.len() < 2 {
        } else if s[1] == '"' {
            lemma_unesc_shrinks(s.skip(2), acc.push('"'));
        } else if s[1] == '\\' {
            lemma_unesc_shrinks(s.skip(2), acc.push('\\'));
        } else if s[1] == 'n' {
            lemma_unesc_shrinks(s.skip(2), acc.push('\n'));
        } else if s[1] == 'r' {
            lemma_unesc_shrinks(s.skip(2), acc.push('\r'));
        } else if s[1] == 't' {
            lemma_unesc_shrinks(s.skip(2), acc.push('\t'));
        } else if s[1] == 'b' {
            lemma_unesc_shrinks(s.skip(2), acc.push('\u{8}'));
        } else if s[1] == 'f' {
            lemma_unesc_shrinks(s.skip(2), acc.push('\u{c}'));
        } else if s[1] == 'u' {
            if s.len() >= 6 && s[2] == '0' && s[3] == '0' && is_hex_digit(s[4]) && is_hex_digit(
                s[5],
            ) {
                lemma_unesc_shrinks(s.skip(6), acc.push((((hex_val(s[4]) * 16 + hex_val(s[5])) as u8) as char)));
            }
        }
    } else {
        lemma_unesc_shrinks(s.drop_first(), acc.push(s[0]));
    }
}

/// Consumes leading digits, accumulating their value.
pub open spec fn digits_from(s: Seq<char>, acc: nat) -> (nat, Seq<char>)
    decreases s.len(),
{
    if s.len() > 0 && is_digit(s[0]) {
        digits_from(s.drop_first(), acc * 10 + digit_val(s[0]))
    } else {
        (acc, s)
    }
}

/// The accumulated value never falls below the accumulator.
pub proof fn lemma_digits_from_lower(s: Seq<char>, acc: nat)
    ensures
        digits_from(s, acc).0 >= acc,
    decreases s.len(),
{
    if s.len() > 0 && is_digit(s[0]) {
        assert(acc * 10 + digit_val(s[0]) >= acc) by (nonlinear_arith);
        lemma_digits_from_lower(s.drop_first(), acc * 10 + digit_val(s[0]));
    }
}

/// A natural number: one or more leading digits.
pub open spec fn parse_nat(s: Seq<char>) -> Option<(nat, Seq<char>)> {
    if s.len() > 0 && is_digit(s[0]) {
        Some(digits_from(s, 0))
    } else {
        None
    }
}

/// An integer: an optional sign and a natural number.
pub open spec fn parse_int(s: Seq<char>) -> Option<(int, Seq<char>)> {
    if s.len() > 0 && s[0] == '-' {
        match parse_nat(s.drop_first()) {
            Some(p) => Some((-(p.0 as int), p.1)),
            None => None,
        }
    } else {
        match parse_nat(s) {
            Some(p) => Some((p.0 as int, p.1)),
            None => None,
        }
    }
}

/// Consumes the elements of a non-empty file array, including the closing
/// bracket. The fuel only bounds recursion; every element consumes some.
pub open spec fn parse_files_rec(s: Seq<char>, acc: Seq<Seq<char>>, fuel: nat) -> Option<
    (Seq<Seq<char>>, Seq<char>),
>
    decreases fuel,
{
    if fuel == 0 {
        None
    } else if s.len() == 0 {
        None
    } else if s[0] == '"' {
        match unesc_from(s.drop_first(), Seq::empty()) {
            None => None,
            Some((elem, r)) => {
                if r.len() == 0 {
                    None
                } else if r[0] == ',' {
                    parse_files_rec(r.drop_first(), acc.push(elem), (fuel - 1) as nat)
                } else if r[0] == ']' {
                    Some((acc.push(elem), r.drop_first()))
                } else {
                    None
                }
            },
        }
    } else {
        None
    }
}

/// A file array after its opening bracket, including the closing bracket.
pub open spec fn parse_files(s: Seq<char>) -> Option<(Seq<Seq<char>>, Seq<char>)> {
    if s.len() == 0 {
        None
    } else if s[0] == ']' {
        Some((Seq::empty(), s.drop_first()))
    } else {
        parse_files_rec(s, Seq::empty(), s.len())
    }
}

/// The commit event encoded in `s`, when `s` is exactly one canonical
/// wire-form object.
pub open spec fn spec_decode(s: Seq<char>) -> Option<CommitView> {
    match spec_expect(s, lit_hash()) { None => None, Some(r) =>
    match unesc_from(r, Seq::empty()) { None => None, Some((hash, r)) =>
    match spec_expect(r, lit_short_hash()) { None => None, Some(r) =>
    match unesc_from(r, Seq::empty()) { None => None, Some((short_hash, r)) =>
    match spec_expect(r, lit_author_name()) { None => None, Some(r) =>
    match unesc_from(r, Seq::empty()) { None => None, Some((author_name, r)) =>
    match spec_expect(r, lit_author_email()) { None => None, Some(r) =>
    match unesc_from(r, Seq::empty()) { None => None, Some((author_email, r)) =>
    match spec_expect(r, lit_committer_name()) { None => None, Some(r) =>
    match unesc_from(r, Seq::empty()) { None => None, Some((committer_name, r)) =>
    match spec_expect(r, lit_committer_email()) { None => None, Some(r) =>
    match unesc_from(r, Seq::empty()) { None => None, Some((committer_email, r)) =>
    match spec_expect(r, lit_message()) { None => None, Some(r) =>
    match unesc_from(r, Seq::empty()) { None => None, Some((message, r)) =>
    match spec_expect(r, lit_timestamp()) { None => None, Some(r) =>
    match parse_int(r) { None => None, Some((t, r)) =>
    if t < -9223372036854775808 || t > 9223372036854775807 {
        None
    } else {
        match spec_expect(r, lit_repository_url()) { None => None, Some(r) =>
        match unesc_from(r, Seq::empty()) { None => None, Some((repository_url, r)) =>
        match spec_expect(r, lit_branch()) { None => None, Some(r) =>
        match unesc_from(r, Seq::empty()) { None => None, Some((branch, r)) =>
        match spec_expect(r, lit_files_changed()) { None => None, Some(r) =>
        match parse_files(r) { None => None, Some((files_changed, r)) =>
        if r.len() == 1 && r[0] == '}' {
            Some(CommitView {
                hash,
                short_hash,
                author_name,
                author_email,
                committer_name,
                committer_email,
                message,
                timestamp: t,
                repository_url,
                branch,
                files_changed,
            })
        } else {
            None
        }
        }}}}}}
    }
    }}}}}}}}}}}}}}}}
}

/// Consumes the expected literal at position `i`, if present.
fn eat_lit(s: &str, i: usize, lit: &str) -> (r: Option<usize>)
    requires
        i <= s@.len(),
    ensures
        r matches Some(j) ==> i <= j <= s@.len() && spec_expect(s@.skip(i as int), lit@) == Some(
            s@.skip(j as int),
        ),
    r is None ==> spec_expect(s@.skip(i as int), lit@) is None,
{
    let suffix = s.substring_char(i, s.unicode_len());
    assert(suffix@ =~= s@.skip(i as int));
    if crate::strutil::has_prefix(suffix, lit) {
        let j = i + lit.unicode_len();
        assert(s@.skip(i as int).skip(lit@.len() as int) =~= s@.skip(j as int));
        Some(j)
    } else {
        None
    }
}

/// The value of one decimal digit character.
fn digit_of(c: char) -> (r: Option<u64>)
    ensures
        is_digit(c) ==> (r matches Some(d) && d < 10 && d as nat == digit_val(c)),
        !is_digit(c) ==> r is None,
{
    let u = c as u32;
    if 48 <= u && u <= 57 {
        Some((u - 48) as u64)
    } else {
        None
    }
}

/// The value of one hexadecimal digit character.
fn hex_of(c: char) -> (r: Option<u32>)
    ensures
        is_hex_digit(c) ==> (r matches Some(h) && h < 16 && h as nat == hex_val(c)),
        !is_hex_digit(c) ==> r is None,
{
    let u = c as u32;
    if 48 <= u && u <= 57 {
        Some(u - 48)
    } else if 97 <= u && u <= 102 {
        Some(u - 87)
    } else {
        None
    }
}

/// Unescapes a string body starting at position `i`, up to and including
/// its closing quote.
fn parse_string_at(s: &str, i: usize) -> (r: Option<(String, usize)>)
    requires
        i <= s@.len(),
    ensures
        r matches Some(p) ==> i <= p.1 <= s@.len() && (unesc_from(s@.skip(i as int), Seq::empty())
            matches Some(q) && q.0 == p.0@ && q.1 == s@.skip(p.1 as int)),
        r is None ==> unesc_from(s@.skip(i as int), Seq::empty()) is None,
{
    let len = s.unicode_len();
    let mut acc: Vec<char> = Vec::new();
    let mut cur: usize = i;
    loop
        invariant
            i <= cur <= len,
            len == s@.len(),
            unesc_from(s@.skip(i as int), Seq::empty()) == unesc_from(
                s@.skip(cur as int),
                acc@,
            ),
        decreases len - cur,
    {
        let ghost rem = s@.skip(cur as int);
        if cur >= len {
            assert(rem.len() == 0);
            return None;
        }
        assert(rem[0] == s@[cur as int]);
        let c = s.get_char(cur);
        if c == '"' {
            assert(rem.drop_first() =~= s@.skip(cur + 1 as int));
            return Some((string_from_chars(&acc), cur + 1));
        } else if c == '\\' {
            if cur + 1 >= len {
                assert(rem.len() < 2);
                return None;
            }
            assert(rem[1] == s@[cur + 1 as int]);
            let e = s.get_char(cur + 1);
            if e == '"' {
                acc.push('"');
                assert(rem.skip(2) =~= s@.skip(cur + 2 as int));
                cur = cur + 2;
            } else if e == '\\' {
                acc.push('\\');
                assert(rem.skip(2) =~= s@.skip(cur + 2 as int));
                cur = cur + 2;
            } else if e == 'n' {
                acc.push('\n');
                assert(rem.skip(2) =~= s@.skip(cur + 2 as int));
                cur = cur + 2;
            } else if e == 'r' {
                acc.push('\r');
                assert(rem.skip(2) =~= s@.skip(cur + 2 as int));
                cur = cur + 2;
            } else if e == 't' {
                acc.push('\t');
                assert(rem.skip(2) =~= s@.skip(cur + 2 as int));
                cur = cur + 2;
            } else if e == 'b' {
                acc.push('\u{8}');
                assert(rem.skip(2) =~= s@.skip(cur + 2 as int));
                cur = cur + 2;
            } else if e == 'f' {
                acc.push('\u{c}');
                assert(rem.skip(2) =~= s@.skip(cur + 2 as int));
                cur = cur + 2;
            } else if e == 'u' {
                if len - cur < 6 {
                    assert(rem.len() < 6);
                    return None;
                }
                assert(rem[2] == s@[cur + 2 as int]);
                assert(rem[3] == s@[cur + 3 as int]);
                assert(rem[4] == s@[cur + 4 as int]);
                assert(rem[5] == s@[cur + 5 as int]);
                if s.get_char(cur + 2) != '0' || s.get_char(cur + 3) != '0' {
                    return None;
                }
                let h1 = hex_of(s.get_char(cur + 4));
                let h2 = hex_of(s.get_char(cur + 5));
                match (h1, h2) {
                    (Some(a), Some(b)) => {
                        acc.push(((a * 16 + b) as u8) as char);
                        assert(rem.skip(6) =~= s@.skip(cur + 6 as int));
                        cur = cur + 6;
                    },
                    _ => {
                        return None;
                    },
                }
            } else {
                return None;
            }
        } else {
            acc.push(c);
            assert(rem.drop_first() =~= s@.skip(cur + 1 as int));
            cur = cur + 1;
        }
    }
}

/// Parses a natural number at position `i`, failing on values that do not
/// fit a machine word.
fn parse_u64_at(s: &str, i: usize) -> (r: Option<(u64, usize)>)
    requires
        i <= s@.len(),
    ensures
        parse_nat(s@.skip(i as int)) matches Some(p) ==> {
            &&& p.0 <= u64::MAX ==> (r matches Some(q) && q.0 as nat == p.0 && i <= q.1 <= s@.len()
                && p.1 == s@.skip(q.1 as int))
            &&& p.0 > u64::MAX ==> r is None
        },
        parse_nat(s@.skip(i as int)) is None ==> r is None,
{
    let len = s.unicode_len();
    if i >= len {
        return None;
    }
    assert(s@.skip(i as int)[0] == s@[i as int]);
    match digit_of(s.get_char(i)) {
        None => {
            return None;
        },
        Some(_) => {},
    }
    let ghost whole = digits_from(s@.skip(i as int), 0);
    assert(parse_nat(s@.skip(i as int)) == Some(whole));
    let mut acc: u64 = 0;
    let mut cur: usize = i;
    loop
        invariant
            i <= cur <= len,
            len == s@.len(),
            whole == digits_from(s@.skip(i as int), 0),
            parse_nat(s@.skip(i as int)) == Some(whole),
            whole == digits_from(s@.skip(cur as int), acc as nat),
        decreases len - cur,
    {
        let ghost rem = s@.skip(cur as int);
        if cur >= len {
            assert(rem.len() == 0);
            assert(whole.0 == acc as nat && whole.1 == rem);
            return Some((acc, cur));
        }
        assert(rem[0] == s@[cur as int]);
        match digit_of(s.get_char(cur)) {
            None => {
                assert(whole.0 == acc as nat && whole.1 == rem);
                return Some((acc, cur));
            },
            Some(d) => {
                assert(rem.drop_first() =~= s@.skip(cur + 1 as int));
                if acc > (u64::MAX - d) / 10 {
                    proof {
                        lemma_digits_from_lower(s@.skip(cur + 1 as int),
                            acc as nat * 10 + digit_val(rem[0]));
                        assert(acc as nat * 10 + digit_val(rem[0]) > u64::MAX) by (nonlinear_arith)
                            requires
                                acc > (u64::MAX - d) / 10,
                                d < 10,
                                d as nat == digit_val(rem[0]),
                        ;
                    }
                    return None;
                }
                acc = acc * 10 + d;
                cur = cur + 1;
            },
        }
    }
}

/// Parses a file array at position `i`, after the opening bracket.
fn parse_files_at(s: &str, i: usize) -> (r: Option<(Vec<String>, usize)>)
    requires
        i <= s@.len(),
    ensures
        parse_files(s@.skip(i as int)) matches Some(p) ==> (r matches Some(q) && q.0@.map_values(
            |f: String| f@,
        ) == p.0 && i <= q.1 <= s@.len() && p.1 == s@.skip(q.1 as int)),
        parse_files(s@.skip(i as int)) is None ==> r is None,
{
    let len = s.unicode_len();
    if i >= len {
        return None;
    }
    let ghost start = s@.skip(i as int);
    assert(start[0] == s@[i as int]);
    if s.get_char(i) == ']' {
        let out: Vec<String> = Vec::new();
        assert(out@.map_values(|f: String| f@) =~= Seq::<Seq<char>>::empty());
        assert(start.drop_first() =~= s@.skip(i + 1 as int));
        return Some((out, i + 1));
    }
    let ghost fuel0 = start.len() as nat;
    let mut out: Vec<String> = Vec::new();
    let mut cur: usize = i;
    let ghost k: nat = 0;
    proof {
        assert(out@.map_values(|f: String| f@) =~= Seq::<Seq<char>>::empty());
    }
    loop
        invariant
            i <= cur <= len,
            len == s@.len(),
            start == s@.skip(i as int),
            start.len() >= 1,
            start[0] != ']',
            fuel0 == start.len(),
            k == out@.len(),
            cur - i >= 3 * k,
            fuel0 >= k + 1,
            parse_files_rec(start, Seq::empty(), fuel0) == parse_files_rec(
                s@.skip(cur as int),
                out@.map_values(|f: String| f@),
                (fuel0 - k) as nat,
            ),
        decreases len - cur,
    {
        let ghost rem = s@.skip(cur as int);
        let ghost accv = out@.map_values(|f: String| f@);
        let ghost fuel = (fuel0 - k) as nat;
        assert(fuel >= 1);
        if cur >= len {
            assert(rem.len() == 0);
            assert(parse_files_rec(rem, accv, fuel) is None);
            return None;
        }
        assert(rem[0] == s@[cur as int]);
        if s.get_char(cur) != '"' {
            assert(parse_files_rec(rem, accv, fuel) is None);
            return None;
        }
        assert(rem.drop_first() =~= s@.skip(cur + 1 as int));
        proof {
            lemma_unesc_shrinks(s@.skip(cur + 1 as int), Seq::empty());
        }
        match parse_string_at(s, cur + 1) {
            None => {
                assert(parse_files_rec(rem, accv, fuel) is None);
                return None;
            },
            Some((elem, j)) => {
                assert(s@.skip(j as int).len() < s@.skip(cur + 1 as int).len());
                assert(j >= cur + 2);
                let ghost after = s@.skip(j as int);
                if j >= len {
                    assert(after.len() == 0);
                    assert(parse_files_rec(rem, accv, fuel) is None);
                    return None;
                }
                assert(after[0] == s@[j as int]);
                let d = s.get_char(j);
                if d == ',' {
                    assert(after.drop_first() =~= s@.skip(j + 1 as int));
                    let ghost accv2 = accv.push(elem@);
                    out.push(elem);
                    proof {
                        assert(out@.map_values(|f: String| f@) =~= accv2);
                        assert(fuel0 - (k + 1) >= 1) by {
                            assert(cur + 3 <= j + 1 <= len);
                            assert(3 * (k + 1) <= (j + 1) - i);
                            assert((j + 1) - i <= fuel0);
                            assert(3 * (k + 1) >= k + 2) by (nonlinear_arith);
                        };
                    }
                    cur = j + 1;
                    proof {
                        k = k + 1;
                    }
                } else if d == ']' {
                    assert(after.drop_first() =~= s@.skip(j + 1 as int));
                    let ghost accv2 = accv.push(elem@);
                    out.push(elem);
                    assert(out@.map_values(|f: String| f@) =~= accv2);
                    assert(parse_files_rec(start, Seq::empty(), fuel0) == Some(
                        (accv2, s@.skip(j + 1 as int)),
                    ));
                    return Some((out, j + 1));
                } else {
                    assert(parse_files_rec(rem, accv, fuel) is None);
                    return None;
                }
            },
        }
    }
}

/// The error every malformed payload decodes to.
fn decode_error() -> (r: GitFriendsError)
    ensures
        r is DecodeFailed,
{
    GitFriendsError::DecodeFailed(String::from_str("malformed commit event"))
}

/// Decodes one canonical wire-form object back into a commit event.
/// Exactly the strings in the image of the encoder decode successfully;
/// anything else fails with a decode error.
#[verifier::rlimit(100)]
pub fn decode_commit(s: &str) -> (r: Result<CommitInfo, GitFriendsError>)
    ensures
        spec_decode(s@) matches Some(v) ==> (r matches Ok(c) && c@ == v),
        spec_decode(s@) is None ==> (r matches Err(e) && e is DecodeFailed),
{
    let len = s.unicode_len();
    assert(s@.skip(0) =~= s@);
    let i1 = match eat_lit(s, 0, "{\"hash\":\"") {
        Some(j) => j,
        None => { return Err(decode_error()); },
    };
    let (hash_s, i2) = match parse_string_at(s, i1) {
        Some(p) => p,
        None => { return Err(decode_error()); },
    };
    let i2b = match eat_lit(s, i2, ",\"short_hash\":\"") {
        Some(j) => j,
        None => { return Err(decode_error()); },
    };
    let (short_s, i3) = match parse_string_at(s, i2b) {
        Some(p) => p,
        None => { return Err(decode_error()); },
    };
    let i3b = match eat_lit(s, i3, ",\"author_name\":\"") {
        Some(j) => j,
        None => { return Err(decode_error()); },
    };
    let (an_s, i4) = match parse_string_at(s, i3b) {
        Some(p) => p,
        None => { return Err(decode_error()); },
    };
    let i4b = match eat_lit(s, i4, ",\"author_email\":\"") {
        Some(j) => j,
        None => { return Err(decode_error()); },
    };
    let (ae_s, i5) = match parse_string_at(s, i4b) {
        Some(p) => p,
        None => { return Err(decode_error()); },
    };
    let i5b = match eat_lit(s, i5, ",\"committer_name\":\"") {
        Some(j) => j,
        None => { return Err(decode_error()); },
    };
    let (cn_s, i6) = match parse_string_at(s, i5b) {
        Some(p) => p,
        None => { return Err(decode_error()); },
    };
    let i6b = match eat_lit(s, i6, ",\"committer_email\":\"") {
        Some(j) => j,
        None => { return Err(decode_error()); },
    };
    let (ce_s, i7) = match parse_string_at(s, i6b) {
        Some(p) => p,
        None => { return Err(decode_error()); },
    };
    let i7b = match eat_lit(s, i7, ",\"message\":\"") {
        Some(j) => j,
        None => { return Err(decode_error()); },
    };
    let (msg_s, i8) = match parse_string_at(s, i7b) {
        Some(p) => p,
        None => { return Err(decode_error()); },
    };
    let i8b = match eat_lit(s, i8, ",\"timestamp\":") {
        Some(j) => j,
        None => { return Err(decode_error()); },
    };
    let ghost remt = s@.skip(i8b as int);
    let neg = if i8b < len {
        assert(remt[0] == s@[i8b as int]);
        s.get_char(i8b) == '-'
    } else {
        assert(remt.len() == 0);
        false
    };
    let nstart = if neg {
        assert(remt.drop_first() =~= s@.skip(i8b + 1 as int));
        i8b + 1
    } else {
        i8b
    };
    let (n, i9) = match parse_u64_at(s, nstart) {
        Some(p) => p,
        None => { return Err(decode_error()); },
    };
    let t: i64 = if neg {
        if n > 9223372036854775808u64 {
            assert(parse_int(remt) matches Some(p) && p.0 < -9223372036854775808);
            return Err(decode_error());
        }
        if n == 9223372036854775808u64 {
            i64::MIN
        } else {
            -(n as i64)
        }
    } else {
        if n > 9223372036854775807u64 {
            assert(parse_int(remt) matches Some(p) && p.0 > 9223372036854775807);
            return Err(decode_error());
        }
        n as i64
    };
    assert(parse_int(remt) matches Some(p) && p.0 == t as int && p.1 == s@.skip(i9 as int));
    let i9b = match eat_lit(s, i9, ",\"repository_url\":\"") {
        Some(j) => j,
        None => { return Err(decode_error()); },
    };
    let (ru_s, i10) = match parse_string_at(s, i9b) {
        Some(p) => p,
        None => { return Err(decode_error()); },
    };
    let i10b = match eat_lit(s, i10, ",\"branch\":\"") {
        Some(j) => j,
        None => { return Err(decode_error()); },
    };
    let (br_s, i11) = match parse_string_at(s, i10b) {
        Some(p) => p,
        None => { return Err(decode_error()); },
    };
    let i11b = match eat_lit(s, i11, ",\"files_changed\":[") {
        Some(j) => j,
        None => { return Err(decode_error()); },
    };
    let (files, i12) = match parse_files_at(s, i11b) {
        Some(p) => p,
        None => { return Err(decode_error()); },
    };
    let ghost tail = s@.skip(i12 as int);
    if len - i12 != 1 {
        assert(tail.len() != 1);
        return Err(decode_error());
    }
    assert(tail[0] == s@[i12 as int]);
    if s.get_char(i12) != '}' {
        return Err(decode_error());
    }
    let ghost target = CommitView {
        hash: hash_s@,
        short_hash: short_s@,
        author_name: an_s@,
        author_email: ae_s@,
        committer_name: cn_s@,
        committer_email: ce_s@,
        message: msg_s@,
        timestamp: t as int,
        repository_url: ru_s@,
        branch: br_s@,
        files_changed: files@.map_values(|f: String| f@),
    };
    assert(spec_decode(s@) == Some(target));
    let c = CommitInfo {
        hash: hash_s,
        short_hash: short_s,
        author_name: an_s,
        author_email: ae_s,
        committer_name: cn_s,
        committer_email: ce_s,
        message: msg_s,
        timestamp: t,
        repository_url: ru_s,
        branch: br_s,
        files_changed: files,
    };
    assert(c@ == target);
    Ok(c)
}

/// A literal is consumed from in front of whatever follows it.
pub proof fn lemma_expect(lit: Seq<char>, rest: Seq<char>)
    ensures
        spec_expect(lit + rest, lit) == Some(rest),
{
    assert((lit + rest).subrange(0, lit.len() as int) =~= lit);
    assert((lit + rest).skip(lit.len() as int) =~= rest);
}

/// The escape of a string can also be peeled from the front.
pub proof fn lemma_esc_str_first(s: Seq<char>)
    requires
        s.len() > 0,
    ensures
        esc_str(s) == esc_char(s[0]) + esc_str(s.drop_first()),
    decreases s.len(),
{
    if s.len() == 1 {
        assert(s.drop_last() =~= Seq::<char>::empty());
        assert(s.drop_first() =~= Seq::<char>::empty());
        assert(esc_str(s) =~= esc_char(s[0]) + esc_str(s.drop_first()));
    } else {
        lemma_esc_str_first(s.drop_last());
        assert(s.drop_last()[0] == s[0]);
        assert(s.drop_last().drop_first() =~= s.drop_first().drop_last());
        assert(s.drop_first().last() == s.last());
        assert(esc_str(s) =~= esc_char(s[0]) + esc_str(s.drop_first()));
    }
}

/// Unescaping inverts escaping: the escaped body followed by a closing
/// quote and anything else yields the body back and leaves the rest.
pub proof fn lemma_unesc_esc(content: Seq<char>, rest: Seq<char>, acc: Seq<char>)
    ensures
        unesc_from(esc_str(content) + seq!['"'] + rest, acc) == Some((acc + content, rest)),
    decreases content.len(),
{
    let s = esc_str(content) + seq!['"'] + rest;
    if content.len() == 0 {
        assert(esc_str(content) =~= Seq::<char>::empty());
        assert(s =~= seq!['"'] + rest);
        assert(s[0] == '"');
        assert(s.drop_first() =~= rest);
        assert(acc + content =~= acc);
    } else {
        let c = content[0];
        lemma_esc_str_first(content);
        let tail = esc_str(content.drop_first()) + seq!['"'] + rest;
        assert(s =~= esc_char(c) + tail);
        lemma_unesc_esc(content.drop_first(), rest, acc.push(c));
        assert(acc.push(c) + content.drop_first() =~= acc + content);
        if c == '"' {
            assert(s[0] == '\\' && s[1] == '"');
            assert(s.skip(2) =~= tail);
        } else if c == '\\' {
            assert(s[0] == '\\' && s[1] == '\\');
            assert(s.skip(2) =~= tail);
        } else if c == '\n' {
            assert(s[0] == '\\' && s[1] == 'n');
            assert(s.skip(2) =~= tail);
        } else if c == '\r' {
            assert(s[0] == '\\' && s[1] == 'r');
            assert(s.skip(2) =~= tail);
        } else if c == '\t' {
            assert(s[0] == '\\' && s[1] == 't');
            assert(s.skip(2) =~= tail);
        } else if c == '\u{8}' {
            assert(s[0] == '\\' && s[1] == 'b');
            assert(s.skip(2) =~= tail);
        } else if c == '\u{c}' {
            assert(s[0] == '\\' && s[1] == 'f');
            assert(s.skip(2) =~= tail);
        } else if (c as u32) < 32 {
            let v = c as u32;
            let hi = (v / 16) as nat;
            let lo = (v % 16) as nat;
            assert(s[0] == '\\' && s[1] == 'u' && s[2] == '0' && s[3] == '0');
            assert(s[4] == hex_digit(hi) && s[5] == hex_digit(lo));
            assert(is_hex_digit(hex_digit(hi)) && hex_val(hex_digit(hi)) == hi);
            assert(is_hex_digit(hex_digit(lo)) && hex_val(hex_digit(lo)) == lo);
            assert(s.skip(6) =~= tail);
            vstd::arithmetic::div_mod::lemma_fundamental_div_mod(v as int, 16);
            assert(hi * 16 + lo == v);
            let w = (hi * 16 + lo) as u8;
            assert(w == v as u8);
            vstd::utf8::char_u32_cast(c, v);
            assert((v as char) == c);
            assert((w as char) == (v as char));
            assert((w as char) == c);
        } else {
            assert(s[0] == c && c != '"' && c != '\\');
            assert(s.drop_first() =~= tail);
        }
    }
}

/// The number of decimal digits of a natural number.
pub open spec fn num_digits(n: nat) -> nat
    decreases n,
{
    if n < 10 {
        1
    } else {
        1 + num_digits(n / 10)
    }
}

pub open spec fn pow10(k: nat) -> nat
    decreases k,
{
    if k == 0 {
        1
    } else {
        10 * pow10((k - 1) as nat)
    }
}

/// Consuming the digits of `n` multiplies the accumulator past them and
/// adds `n`.
pub proof fn lemma_digits_from_dec(n: nat, rest: Seq<char>, acc: nat)
    ensures
        digits_from(dec_digits(n) + rest, acc) == digits_from(
            rest,
            acc * pow10(num_digits(n)) + n,
        ),
    decreases n,
{
    if n < 10 {
        let s = dec_digits(n) + rest;
        assert(s[0] == dec_digit(n));
        assert(is_digit(dec_digit(n)) && digit_val(dec_digit(n)) == n);
        assert(s.drop_first() =~= rest);
        assert(pow10(0) == 1);
        assert(pow10(1) == 10);
        assert(acc * pow10(1) == acc * 10);
    } else {
        let d = n % 10;
        let m = n / 10;
        assert(dec_digits(n) + rest =~= dec_digits(m) + (seq![dec_digit(d)] + rest));
        lemma_digits_from_dec(m, seq![dec_digit(d)] + rest, acc);
        let a2 = acc * pow10(num_digits(m)) + m;
        let s2 = seq![dec_digit(d)] + rest;
        assert(s2[0] == dec_digit(d));
        assert(is_digit(dec_digit(d)) && digit_val(dec_digit(d)) == d);
        assert(s2.drop_first() =~= rest);
        assert(digits_from(s2, a2) == digits_from(rest, a2 * 10 + d));
        assert(num_digits(n) == 1 + num_digits(m));
        assert(pow10(num_digits(n)) == 10 * pow10(num_digits(m)));
        assert(a2 * 10 + d == acc * pow10(num_digits(n)) + n) by (nonlinear_arith)
            requires
                a2 == acc * pow10(num_digits(m)) + m,
                pow10(num_digits(n)) == 10 * pow10(num_digits(m)),
                n == m * 10 + d,
        ;
    }
}

pub proof fn lemma_dec_digits_first_digit(n: nat)
    ensures
        dec_digits(n).len() > 0,
        is_digit(dec_digits(n)[0]),
    decreases n,
{
    if n >= 10 {
        lemma_dec_digits_first_digit(n / 10);
        assert(dec_digits(n)[0] == dec_digits(n / 10)[0]);
    }
}

/// Parsing the decimal digits of `n` yields `n` and stops exactly at a
/// non-digit.
pub proof fn lemma_parse_nat_dec(n: nat, rest: Seq<char>)
    requires
        rest.len() == 0 || !is_digit(rest[0]),
    ensures
        parse_nat(dec_digits(n) + rest) == Some((n, rest)),
{
    let s = dec_digits(n) + rest;
    lemma_dec_digits_first_digit(n);
    assert(s[0] == dec_digits(n)[0]);
    lemma_digits_from_dec(n, rest, 0);
    assert(0 * pow10(num_digits(n)) == 0) by (nonlinear_arith);
    assert(digits_from(rest, n) == (n, rest));
}

/// Parsing the decimal form of `t` yields `t` and stops exactly at a
/// non-digit.
pub proof fn lemma_parse_int_chars(t: int, rest: Seq<char>)
    requires
        rest.len() == 0 || !is_digit(rest[0]),
    ensures
        parse_int(int_chars(t) + rest) == Some((t, rest)),
{
    if t < 0 {
        let s = int_chars(t) + rest;
        assert(s =~= seq!['-'] + (dec_digits((-t) as nat) + rest));
        assert(s[0] == '-');
        assert(s.drop_first() =~= dec_digits((-t) as nat) + rest);
        lemma_parse_nat_dec((-t) as nat, rest);
    } else {
        let s = int_chars(t) + rest;
        assert(s =~= dec_digits(t as nat) + rest);
        lemma_parse_nat_dec(t as nat, rest);
        lemma_dec_digits_first_digit(t as nat);
        assert(s[0] == dec_digits(t as nat)[0]);
        assert(s[0] != '-');
    }
}

pub proof fn lemma_files_chars_len(fs: Seq<Seq<char>>)
    ensures
        files_chars(fs).len() >= fs.len(),
    decreases fs.len(),
{
    if fs.len() > 1 {
        lemma_files_chars_len(fs.drop_first());
    }
}

/// Parsing the encoded elements of a non-empty file list yields the list.
pub proof fn lemma_parse_files_rec_enc(
    fs: Seq<Seq<char>>,
    rest: Seq<char>,
    acc: Seq<Seq<char>>,
    fuel: nat,
)
    requires
        fs.len() >= 1,
        fuel >= fs.len(),
    ensures
        parse_files_rec(files_chars(fs) + seq![']'] + rest, acc, fuel) == Some((acc + fs, rest)),
    decreases fs.len(),
{
    let s = files_chars(fs) + seq![']'] + rest;
    if fs.len() == 1 {
        assert(files_chars(fs) == quoted(fs[0]));
        assert(s =~= seq!['"'] + (esc_str(fs[0]) + seq!['"'] + (seq![']'] + rest)));
        assert(s[0] == '"');
        assert(s.drop_first() =~= esc_str(fs[0]) + seq!['"'] + (seq![']'] + rest));
        lemma_unesc_esc(fs[0], seq![']'] + rest, Seq::empty());
        assert(Seq::empty() + fs[0] =~= fs[0]);
        let r = seq![']'] + rest;
        assert(r[0] == ']');
        assert(r.drop_first() =~= rest);
        assert(acc.push(fs[0]) =~= acc + fs);
    } else {
        assert(files_chars(fs) == quoted(fs[0]) + seq![','] + files_chars(fs.drop_first()));
        let inner_rest = seq![','] + (files_chars(fs.drop_first()) + seq![']'] + rest);
        assert(s =~= seq!['"'] + (esc_str(fs[0]) + seq!['"'] + inner_rest));
        assert(s[0] == '"');
        assert(s.drop_first() =~= esc_str(fs[0]) + seq!['"'] + inner_rest);
        lemma_unesc_esc(fs[0], inner_rest, Seq::empty());
        assert(Seq::empty() + fs[0] =~= fs[0]);
        assert(inner_rest[0] == ',');
        assert(inner_rest.drop_first() =~= files_chars(fs.drop_first()) + seq![']'] + rest);
        lemma_parse_files_rec_enc(fs.drop_first(), rest, acc.push(fs[0]), (fuel - 1) as nat);
        assert(acc.push(fs[0]) + fs.drop_first() =~= acc + fs);
    }
}

/// Parsing an encoded file list, brackets included, yields the list.
pub proof fn lemma_parse_files_enc(fs: Seq<Seq<char>>, rest: Seq<char>)
    ensures
        parse_files(files_chars(fs) + seq![']'] + rest) == Some((fs, rest)),
{
    let s = files_chars(fs) + seq![']'] + rest;
    if fs.len() == 0 {
        assert(files_chars(fs) =~= Seq::<char>::empty());
        assert(s =~= seq![']'] + rest);
        assert(s[0] == ']');
        assert(s.drop_first() =~= rest);
        assert(fs =~= Seq::<Seq<char>>::empty());
    } else {
        assert(files_chars(fs)[0] == '"');
        assert(s[0] == '"');
        lemma_files_chars_len(fs);
        assert(s.len() >= fs.len());
        lemma_parse_files_rec_enc(fs, rest, Seq::empty(), s.len() as nat);
        assert(Seq::empty() + fs =~= fs);
    }
}

/// The wire form again, grouped as the decoder peels it off the front.
pub open spec fn encode_nested(c: CommitView) -> Seq<char> {
    lit_hash() + (esc_str(c.hash) + (seq!['"']
        + (lit_short_hash() + (esc_str(c.short_hash) + (seq!['"']
        + (lit_author_name() + (esc_str(c.author_name) + (seq!['"']
        + (lit_author_email() + (esc_str(c.author_email) + (seq!['"']
        + (lit_committer_name() + (esc_str(c.committer_name) + (seq!['"']
        + (lit_committer_email() + (esc_str(c.committer_email) + (seq!['"']
        + (lit_message() + (esc_str(c.message) + (seq!['"']
        + (lit_timestamp() + (int_chars(c.timestamp)
        + (lit_repository_url() + (esc_str(c.repository_url) + (seq!['"']
        + (lit_branch() + (esc_str(c.branch) + (seq!['"']
        + (lit_files_changed() + (files_chars(c.files_changed) + (seq![']']
        + seq!['}'])))))))))))))))))))))))))))))))
}

/// Four concatenated pieces, regrouped to the right.
pub proof fn lemma_assoc4(a: Seq<char>, b: Seq<char>, c: Seq<char>, d: Seq<char>)
    ensures
        a + b + c + d == a + (b + (c + d)),
{
    assert(a + b + c + d =~= a + (b + (c + d)));
}

/// Five concatenated pieces, regrouped to the right.
pub proof fn lemma_assoc5(a: Seq<char>, b: Seq<char>, c: Seq<char>, d: Seq<char>, e: Seq<char>)
    ensures
        a + b + c + d + e == a + (b + (c + (d + e))),
{
    assert(a + b + c + d + e =~= a + (b + (c + (d + e))));
}

/// The two groupings of the wire form are the same string.
#[verifier::rlimit(100)]
pub proof fn lemma_encode_nested(c: CommitView)
    ensures
        spec_encode(c) == encode_nested(c),
{
    let p1 = lit_hash() + esc_str(c.hash) + seq!['"'];
    let p2 = p1 + lit_short_hash() + esc_str(c.short_hash) + seq!['"'];
    let p3 = p2 + lit_author_name() + esc_str(c.author_name) + seq!['"'];
    let p4 = p3 + lit_author_email() + esc_str(c.author_email) + seq!['"'];
    let p5 = p4 + lit_committer_name() + esc_str(c.committer_name) + seq!['"'];
    let p6 = p5 + lit_committer_email() + esc_str(c.committer_email) + seq!['"'];
    let p7 = p6 + lit_message() + esc_str(c.message) + seq!['"'];
    let p8 = p7 + lit_timestamp() + int_chars(c.timestamp);
    let p9 = p8 + lit_repository_url() + esc_str(c.repository_url) + seq!['"'];
    let p10 = p9 + lit_branch() + esc_str(c.branch) + seq!['"'];
    assert(spec_encode(c) == p10 + lit_files_changed() + files_chars(c.files_changed) + seq![']']
        + seq!['}']);

    let t11 = lit_files_changed() + (files_chars(c.files_changed) + (seq![']'] + seq!['}']));
    lemma_assoc5(p10, lit_files_changed(), files_chars(c.files_changed), seq![']'], seq!['}']);
    let t10 = lit_branch() + (esc_str(c.branch) + (seq!['"'] + t11));
    lemma_assoc5(p9, lit_branch(), esc_str(c.branch), seq!['"'], t11);
    let t9 = lit_repository_url() + (esc_str(c.repository_url) + (seq!['"'] + t10));
    lemma_assoc5(p8, lit_repository_url(), esc_str(c.repository_url), seq!['"'], t10);
    let t8 = lit_timestamp() + (int_chars(c.timestamp) + t9);
    lemma_assoc4(p7, lit_timestamp(), int_chars(c.timestamp), t9);
    let t7 = lit_message() + (esc_str(c.message) + (seq!['"'] + t8));
    lemma_assoc5(p6, lit_message(), esc_str(c.message), seq!['"'], t8);
    let t6 = lit_committer_email() + (esc_str(c.committer_email) + (seq!['"'] + t7));
    lemma_assoc5(p5, lit_committer_email(), esc_str(c.committer_email), seq!['"'], t7);
    let t5 = lit_committer_name() + (esc_str(c.committer_name) + (seq!['"'] + t6));
    lemma_assoc5(p4, lit_committer_name(), esc_str(c.committer_name), seq!['"'], t6);
    let t4 = lit_author_email() + (esc_str(c.author_email) + (seq!['"'] + t5));
    lemma_assoc5(p3, lit_author_email(), esc_str(c.author_email), seq!['"'], t5);
    let t3 = lit_author_name() + (esc_str(c.author_name) + (seq!['"'] + t4));
    lemma_assoc5(p2, lit_author_name(), esc_str(c.author_name), seq!['"'], t4);
    let t2 = lit_short_hash() + (esc_str(c.short_hash) + (seq!['"'] + t3));
    lemma_assoc5(p1, lit_short_hash(), esc_str(c.short_hash), seq!['"'], t3);
    let t1 = lit_hash() + (esc_str(c.hash) + (seq!['"'] + t2));
    lemma_assoc4(lit_hash(), esc_str(c.hash), seq!['"'], t2);
    assert(encode_nested(c) == t1);
}

/// Decoding peels the nested grouping field by field.
#[verifier::rlimit(100)]
pub proof fn lemma_decode_nested(c: CommitView)
    requires
        c.wf(),
    ensures
        spec_decode(encode_nested(c)) == Some(c),
{
    let t11 = lit_files_changed() + (files_chars(c.files_changed) + (seq![']'] + seq!['}']));
    let t10 = lit_branch() + (esc_str(c.branch) + (seq!['"'] + t11));
    let t9 = lit_repository_url() + (esc_str(c.repository_url) + (seq!['"'] + t10));
    let t8 = lit_timestamp() + (int_chars(c.timestamp) + t9);
    let t7 = lit_message() + (esc_str(c.message) + (seq!['"'] + t8));
    let t6 = lit_committer_email() + (esc_str(c.committer_email) + (seq!['"'] + t7));
    let t5 = lit_committer_name() + (esc_str(c.committer_name) + (seq!['"'] + t6));
    let t4 = lit_author_email() + (esc_str(c.author_email) + (seq!['"'] + t5));
    let t3 = lit_author_name() + (esc_str(c.author_name) + (seq!['"'] + t4));
    let t2 = lit_short_hash() + (esc_str(c.short_hash) + (seq!['"'] + t3));
    let t1 = lit_hash() + (esc_str(c.hash) + (seq!['"'] + t2));
    assert(encode_nested(c) == t1);

    let r1 = esc_str(c.hash) + (seq!['"'] + t2);
    lemma_expect(lit_hash(), r1);
    assert(r1 =~= esc_str(c.hash) + seq!['"'] + t2);
    lemma_unesc_esc(c.hash, t2, Seq::empty());
    assert(Seq::empty() + c.hash =~= c.hash);

    let r2 = esc_str(c.short_hash) + (seq!['"'] + t3);
    lemma_expect(lit_short_hash(), r2);
    assert(r2 =~= esc_str(c.short_hash) + seq!['"'] + t3);
    lemma_unesc_esc(c.short_hash, t3, Seq::empty());
    assert(Seq::empty() + c.short_hash =~= c.short_hash);

    let r3 = esc_str(c.author_name) + (seq!['"'] + t4);
    lemma_expect(lit_author_name(), r3);
    assert(r3 =~= esc_str(c.author_name) + seq!['"'] + t4);
    lemma_unesc_esc(c.author_name, t4, Seq::empty());
    assert(Seq::empty() + c.author_name =~= c.author_name);

    let r4 = esc_str(c.author_email) + (seq!['"'] + t5);
    lemma_expect(lit_author_email(), r4);
    assert(r4 =~= esc_str(c.author_email) + seq!['"'] + t5);
    lemma_unesc_esc(c.author_email, t5, Seq::empty());
    assert(Seq::empty() + c.author_email =~= c.author_email);

    let r5 = esc_str(c.committer_name) + (seq!['"'] + t6);
    lemma_expect(lit_committer_name(), r5);
    assert(r5 =~= esc_str(c.committer_name) + seq!['"'] + t6);
    lemma_unesc_esc(c.committer_name, t6, Seq::empty());
    assert(Seq::empty() + c.committer_name =~= c.committer_name);

    let r6 = esc_str(c.committer_email) + (seq!['"'] + t7);
    lemma_expect(lit_committer_email(), r6);
    assert(r6 =~= esc_str(c.committer_email) + seq!['"'] + t7);
    lemma_unesc_esc(c.committer_email, t7, Seq::empty());
    assert(Seq::empty() + c.committer_email =~= c.committer_email);

    let r7 = esc_str(c.message) + (seq!['"'] + t8);
    lemma_expect(lit_message(), r7);
    assert(r7 =~= esc_str(c.message) + seq!['"'] + t8);
    lemma_unesc_esc(c.message, t8, Seq::empty());
    assert(Seq::empty() + c.message =~= c.message);

    let r8 = int_chars(c.timestamp) + t9;
    lemma_expect(lit_timestamp(), r8);
    reveal_strlit(",\"repository_url\":\"");
    assert(lit_repository_url()[0] == ',');
    assert(t9[0] == ',');
    assert(!is_digit(','));
    lemma_parse_int_chars(c.timestamp, t9);

    let r9 = esc_str(c.repository_url) + (seq!['"'] + t10);
    lemma_expect(lit_repository_url(), r9);
    assert(r9 =~= esc_str(c.repository_url) + seq!['"'] + t10);
    lemma_unesc_esc(c.repository_url, t10, Seq::empty());
    assert(Seq::empty() + c.repository_url =~= c.repository_url);

    let r10 = esc_str(c.branch) + (seq!['"'] + t11);
    lemma_expect(lit_branch(), r10);
    assert(r10 =~= esc_str(c.branch) + seq!['"'] + t11);
    lemma_unesc_esc(c.branch, t11, Seq::empty());
    assert(Seq::empty() + c.branch =~= c.branch);

    let r11 = files_chars(c.files_changed) + (seq![']'] + seq!['}']);
    lemma_expect(lit_files_changed(), r11);
    assert(r11 =~= files_chars(c.files_changed) + seq![']'] + seq!['}']);
    lemma_parse_files_enc(c.files_changed, seq!['}']);

    let tail = seq!['}'];
    assert(tail.len() == 1 && tail[0] == '}');
    let v = CommitView {
        hash: c.hash,
        short_hash: c.short_hash,
        author_name: c.author_name,
        author_email: c.author_email,
        committer_name: c.committer_name,
        committer_email: c.committer_email,
        message: c.message,
        timestamp: c.timestamp,
        repository_url: c.repository_url,
        branch: c.branch,
        files_changed: c.files_changed,
    };
    assert(v =~= c);
    assert(spec_decode(encode_nested(c)) == Some(v));
}

/// Round trip: decoding an encoded commit event reproduces every field,
/// for every well-formed event, including multi-line unicode text.
pub proof fn lemma_decode_encode(c: CommitView)
    requires
        c.wf(),
    ensures
        spec_decode(spec_encode(c)) == Some(c),
{
    lemma_encode_nested(c);
    lemma_decode_nested(c);
}

} // verus!
