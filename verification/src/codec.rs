//! The persistence format: a compact JSON array of objects, each with the
//! four string fields `name`, `version`, `path` and `args`, in that order.
//!
//! Both directions are written here and verified against the same spec
//! grammar: `json_of` says exactly what `to_json` produces, the `p_*`
//! functions say exactly what `from_json` accepts, and `lemma_round_trip`
//! proves that parsing what was rendered gives back the original
//! profiles, field for field, for every registry.
//!
//! Escaping: `"` and `\` are written with a backslash, the control
//! characters newline, carriage return, tab, backspace and form feed as
//! `\n`, `\r`, `\t`, `\b`, `\f`; every other character stands for itself.
//! The parser additionally accepts `\/`.

use crate::config::{views_of, Config, ProfileView, ServerConfig};
use crate::text::{chars_of, push_char, string_from_chars};
use vstd::prelude::*;
use vstd::string::StrSliceExecFns;

verus! {

// ---------------------------------------------------------------------
// Rendering, as a spec-level function on character sequences.
// ---------------------------------------------------------------------
/// How one character is written inside a quoted string.
pub open spec fn esc_char(c: char) -> Seq<char> {
    if c == '"' {
        seq!['\\', '"']
    } else if c == '\\' {
        seq!['\\', '\\']
    } else if c == '\n' {
        seq!['\\', 'n']
    } else if c == '\r' {
        seq!['\\', 'r']
    } else if c == '\t' {
        seq!['\\', 't']
    } else if c == '\u{8}' {
        seq!['\\', 'b']
    } else if c == '\u{c}' {
        seq!['\\', 'f']
    } else {
        seq![c]
    }
}

/// How a whole string is written inside quotes.
pub open spec fn esc(s: Seq<char>) -> Seq<char>
    decreases s.len(),
{
    if s.len() == 0 {
        Seq::<char>::empty()
    } else {
        esc_char(s[0]) + esc(s.drop_first())
    }
}

/// A string rendered with its surrounding quotes.
pub open spec fn quoted(s: Seq<char>) -> Seq<char> {
    seq!['"'] + esc(s) + seq!['"']
}

/// The object keys, each rendered with its following colon.
pub open spec fn key_name() -> Seq<char> {
    "\"name\":"@
}

pub open spec fn key_version() -> Seq<char> {
    "\"version\":"@
}

pub open spec fn key_path() -> Seq<char> {
    "\"path\":"@
}

pub open spec fn key_args() -> Seq<char> {
    "\"args\":"@
}

/// One `key:"value"` pair.
pub open spec fn field(key: Seq<char>, v: Seq<char>) -> Seq<char> {
    key + quoted(v)
}

/// One profile rendered as an object.
pub open spec fn json_of_profile(p: ProfileView) -> Seq<char> {
    seq!['{'] + field(key_name(), p.name) + seq![','] + field(key_version(), p.version) + seq![',']
        + field(key_path(), p.path) + seq![','] + field(key_args(), p.args) + seq!['}']
}

/// The rendering of every profile after the first: each preceded by a
/// comma, the whole closed by the bracket.
pub open spec fn json_tail(ps: Seq<ProfileView>) -> Seq<char>
    decreases ps.len(),
{
    if ps.len() == 0 {
        seq![']']
    } else {
        seq![','] + json_of_profile(ps[0]) + json_tail(ps.drop_first())
    }
}

/// The rendering of a whole registry.
pub open spec fn json_of(ps: Seq<ProfileView>) -> Seq<char> {
    if ps.len() == 0 {
        seq!['[', ']']
    } else {
        seq!['['] + json_of_profile(ps[0]) + json_tail(ps.drop_first())
    }
}

// ---------------------------------------------------------------------
// Parsing, as spec-level functions consuming from the front and handing
// back the rest of the input.
// ---------------------------------------------------------------------
/// The character an escape code stands for, if the code is recognized.
pub open spec fn unesc_char(c: char) -> Option<char> {
    if c == '"' {
        Some('"')
    } else if c == '\\' {
        Some('\\')
    } else if c == '/' {
        Some('/')
    } else if c == 'n' {
        Some('\n')
    } else if c == 'r' {
        Some('\r')
    } else if c == 't' {
        Some('\t')
    } else if c == 'b' {
        Some('\u{8}')
    } else if c == 'f' {
        Some('\u{c}')
    } else {
        None
    }
}

/// Parses the body of a quoted string, up to and including the closing
/// quote; yields the unescaped content and the rest of the input.
pub open spec fn p_str_body(s: Seq<char>) -> Option<(Seq<char>, Seq<char>)>
    decreases s.len(),
{
    if s.len() == 0 {
        None
    } else if s[0] == '"' {
        Some((Seq::<char>::empty(), s.drop_first()))
    } else if s[0] == '\\' {
        if s.len() < 2 {
            None
        } else {
            match unesc_char(s[1]) {
                Some(c) => match p_str_body(s.skip(2)) {
                    Some(tr) => Some((seq![c] + tr.0, tr.1)),
                    None => None,
                },
                None => None,
            }
        }
    } else {
        match p_str_body(s.drop_first()) {
            Some(tr) => Some((seq![s[0]] + tr.0, tr.1)),
            None => None,
        }
    }
}

/// Parses one expected character.
pub open spec fn p_char(s: Seq<char>, c: char) -> Option<Seq<char>> {
    if s.len() > 0 && s[0] == c {
        Some(s.drop_first())
    } else {
        None
    }
}

/// Parses an expected literal prefix.
pub open spec fn p_lit(s: Seq<char>, lit: Seq<char>) -> Option<Seq<char>> {
    if lit.len() <= s.len() && s.subrange(0, lit.len() as int) == lit {
        Some(s.skip(lit.len() as int))
    } else {
        None
    }
}

/// Parses a whole quoted string, opening quote included.
pub open spec fn p_string(s: Seq<char>) -> Option<(Seq<char>, Seq<char>)> {
    if s.len() > 0 && s[0] == '"' {
        p_str_body(s.drop_first())
    } else {
        None
    }
}

/// Parses one `key:"value"` pair.
pub open spec fn p_field(s: Seq<char>, key: Seq<char>) -> Option<(Seq<char>, Seq<char>)> {
    match p_lit(s, key) {
        Some(s1) => p_string(s1),
        None => None,
    }
}

/// Parses one profile object.
pub open spec fn p_profile(s: Seq<char>) -> Option<(ProfileView, Seq<char>)> {
    match p_char(s, '{') {
        None => None,
        Some(s1) => match p_field(s1, key_name()) {
            None => None,
            Some((name, s2)) => match p_char(s2, ',') {
                None => None,
                Some(s3) => match p_field(s3, key_version()) {
                    None => None,
                    Some((version, s4)) => match p_char(s4, ',') {
                        None => None,
                        Some(s5) => match p_field(s5, key_path()) {
                            None => None,
                            Some((path, s6)) => match p_char(s6, ',') {
                                None => None,
                                Some(s7) => match p_field(s7, key_args()) {
                                    None => None,
                                    Some((args, s8)) => match p_char(s8, '}') {
                                        None => None,
                                        Some(s9) => Some(
                                            (ProfileView { name, version, path, args }, s9),
                                        ),
                                    },
                                },
                            },
                        },
                    },
                },
            },
        },
    }
}

/// A successful string-body parse consumes at least the closing quote.
pub proof fn lemma_p_str_body_len(s: Seq<char>)
    requires
        p_str_body(s) is Some,
    ensures
        p_str_body(s)->Some_0.1.len() < s.len(),
    decreases s.len(),
{
    if s[0] == '"' {
    } else if s[0] == '\\' {
        lemma_p_str_body_len(s.skip(2));
    } else {
        lemma_p_str_body_len(s.drop_first());
    }
}

/// A successful profile parse consumes at least one character.
pub proof fn lemma_p_profile_len(s: Seq<char>)
    requires
        p_profile(s) is Some,
    ensures
        p_profile(s)->Some_0.1.len() < s.len(),
{
    let s1 = p_char(s, '{')->Some_0;
    lemma_p_field_len(s1, key_name());
    let s2 = p_field(s1, key_name())->Some_0.1;
    let s3 = p_char(s2, ',')->Some_0;
    lemma_p_field_len(s3, key_version());
    let s4 = p_field(s3, key_version())->Some_0.1;
    let s5 = p_char(s4, ',')->Some_0;
    lemma_p_field_len(s5, key_path());
    let s6 = p_field(s5, key_path())->Some_0.1;
    let s7 = p_char(s6, ',')->Some_0;
    lemma_p_field_len(s7, key_args());
}

/// A successful field parse consumes at least one character.
pub proof fn lemma_p_field_len(s: Seq<char>, key: Seq<char>)
    requires
        p_field(s, key) is Some,
    ensures
        p_field(s, key)->Some_0.1.len() < s.len(),
{
    let s1 = p_lit(s, key)->Some_0;
    lemma_p_str_body_len(s1.drop_first());
}

/// Parses the input that follows the first profile of a non-empty
/// array: either the closing bracket, or a comma and a further profile,
/// repeatedly.
pub open spec fn p_rest(s: Seq<char>) -> Option<(Seq<ProfileView>, Seq<char>)>
    decreases s.len(),
    via p_rest_decreases
{
    if s.len() > 0 && s[0] == ']' {
        Some((Seq::<ProfileView>::empty(), s.drop_first()))
    } else if s.len() > 0 && s[0] == ',' {
        match p_profile(s.drop_first()) {
            Some((p, r)) => match p_rest(r) {
                Some((ps, r2)) => Some((seq![p] + ps, r2)),
                None => None,
            },
            None => None,
        }
    } else {
        None
    }
}

#[via_fn]
proof fn p_rest_decreases(s: Seq<char>) {
    if s.len() > 0 && s[0] == ',' {
        if p_profile(s.drop_first()) is Some {
            lemma_p_profile_len(s.drop_first());
        }
    }
}

/// Parses a whole document: one array of profiles, nothing before or
/// after it.
pub open spec fn p_top(s: Seq<char>) -> Option<Seq<ProfileView>> {
    match p_char(s, '[') {
        None => None,
        Some(t) => {
            if t.len() > 0 && t[0] == ']' {
                if t.len() == 1 {
                    Some(Seq::<ProfileView>::empty())
                } else {
                    None
                }
            } else {
                match p_profile(t) {
                    None => None,
                    Some((p, r)) => match p_rest(r) {
                        Some((ps, r2)) => if r2.len() == 0 {
                            Some(seq![p] + ps)
                        } else {
                            None
                        },
                        None => None,
                    },
                }
            }
        },
    }
}

// ---------------------------------------------------------------------
// Round trip: parsing what was rendered gives the original back.
// ---------------------------------------------------------------------
/// Escaping a character never produces a bare quote or backslash, and
/// every escape code decodes to the character it was made from.
proof fn lemma_esc_char_shape(c: char)
    ensures
        esc_char(c).len() == 1 || esc_char(c).len() == 2,
        esc_char(c).len() == 1 ==> esc_char(c)[0] == c && c != '"' && c != '\\',
        esc_char(c).len() == 2 ==> esc_char(c)[0] == '\\' && unesc_char(esc_char(c)[1]) == Some(c),
{
}

/// Parsing the escaped form of `s`, followed by a closing quote and any
/// rest, gives back exactly `s` and that rest.
proof fn lemma_p_str_body_esc(s: Seq<char>, rest: Seq<char>)
    ensures
        p_str_body(esc(s) + seq!['"'] + rest) == Some((s, rest)),
    decreases s.len(),
{
    let whole = esc(s) + seq!['"'] + rest;
    if s.len() == 0 {
        assert(esc(s) =~= Seq::<char>::empty());
        assert(whole =~= seq!['"'] + rest);
        assert(whole[0] == '"');
        assert(whole.drop_first() =~= rest);
        assert(p_str_body(whole) == Some((Seq::<char>::empty(), rest)));
        assert(Seq::<char>::empty() =~= s);
    } else {
        let c = s[0];
        let tail = s.drop_first();
        lemma_esc_char_shape(c);
        assert(esc(s) == esc_char(c) + esc(tail));
        lemma_p_str_body_esc(tail, rest);
        let inner = esc(tail) + seq!['"'] + rest;
        if esc_char(c).len() == 2 {
            assert(whole[0] == '\\');
            assert(whole.len() >= 2);
            assert(whole[1] == esc_char(c)[1]);
            assert(unesc_char(whole[1]) == Some(c));
            assert(whole.skip(2) =~= inner);
            assert(p_str_body(whole) == Some((seq![c] + tail, rest)));
            assert(seq![c] + tail =~= s);
        } else {
            assert(whole[0] == c);
            assert(c != '"' && c != '\\');
            assert(whole.drop_first() =~= inner);
            assert(p_str_body(whole) == Some((seq![c] + tail, rest)));
            assert(seq![c] + tail =~= s);
        }
    }
}

/// Parsing an expected literal that is in fact the prefix consumes it.
proof fn lemma_p_lit_prefix(lit: Seq<char>, rest: Seq<char>)
    ensures
        p_lit(lit + rest, lit) == Some(rest),
{
    let whole = lit + rest;
    assert(whole.subrange(0, lit.len() as int) =~= lit);
    assert(whole.skip(lit.len() as int) =~= rest);
}

/// Parsing an expected character that is in fact first consumes it.
proof fn lemma_p_char_prefix(c: char, rest: Seq<char>)
    ensures
        p_char(seq![c] + rest, c) == Some(rest),
{
    let whole = seq![c] + rest;
    assert(whole[0] == c);
    assert(whole.drop_first() =~= rest);
}

/// Parsing a rendered string gives back its content.
proof fn lemma_p_string_quoted(v: Seq<char>, rest: Seq<char>)
    ensures
        p_string(quoted(v) + rest) == Some((v, rest)),
{
    let whole = quoted(v) + rest;
    assert(whole[0] == '"');
    assert(whole.drop_first() =~= esc(v) + seq!['"'] + rest);
    lemma_p_str_body_esc(v, rest);
}

/// Parsing a rendered field gives back its value.
proof fn lemma_p_field_rendered(key: Seq<char>, v: Seq<char>, rest: Seq<char>)
    ensures
        p_field(field(key, v) + rest, key) == Some((v, rest)),
{
    let whole = field(key, v) + rest;
    assert(whole =~= key + (quoted(v) + rest));
    lemma_p_lit_prefix(key, quoted(v) + rest);
    lemma_p_string_quoted(v, rest);
}

/// Parsing the second half of a rendered profile, from its `path` field
/// on, gives back the two remaining values.
#[verifier::rlimit(100)]
proof fn lemma_p_profile_rendered_back(p: ProfileView, rest: Seq<char>)
    ensures
        ({
            let r5 = field(key_path(), p.path) + seq![','] + field(key_args(), p.args) + seq!['}']
                + rest;
            p_field(r5, key_path()) is Some && p_field(r5, key_path())->Some_0.0 == p.path && ({
                let s6 = p_field(r5, key_path())->Some_0.1;
                p_char(s6, ',') is Some && ({
                    let s7 = p_char(s6, ',')->Some_0;
                    p_field(s7, key_args()) is Some && p_field(s7, key_args())->Some_0.0 == p.args
                        && ({
                        let s8 = p_field(s7, key_args())->Some_0.1;
                        p_char(s8, '}') == Some(rest)
                    })
                })
            })
        }),
{
    let r5 = field(key_path(), p.path) + seq![','] + field(key_args(), p.args) + seq!['}'] + rest;
    let r6 = seq![','] + field(key_args(), p.args) + seq!['}'] + rest;
    assert(r5 =~= field(key_path(), p.path) + r6);
    lemma_p_field_rendered(key_path(), p.path, r6);
    let r7 = field(key_args(), p.args) + seq!['}'] + rest;
    assert(r6 =~= seq![','] + r7);
    lemma_p_char_prefix(',', r7);
    let r8 = seq!['}'] + rest;
    assert(r7 =~= field(key_args(), p.args) + r8);
    lemma_p_field_rendered(key_args(), p.args, r8);
    lemma_p_char_prefix('}', rest);
}

/// Parsing a rendered profile gives back the profile.
#[verifier::rlimit(100)]
proof fn lemma_p_profile_rendered(p: ProfileView, rest: Seq<char>)
    ensures
        p_profile(json_of_profile(p) + rest) == Some((p, rest)),
{
    let whole = json_of_profile(p) + rest;
    let r1 = field(key_name(), p.name) + seq![','] + field(key_version(), p.version) + seq![',']
        + field(key_path(), p.path) + seq![','] + field(key_args(), p.args) + seq!['}'] + rest;
    assert(whole =~= seq!['{'] + r1);
    lemma_p_char_prefix('{', r1);
    let r2 = seq![','] + field(key_version(), p.version) + seq![','] + field(key_path(), p.path)
        + seq![','] + field(key_args(), p.args) + seq!['}'] + rest;
    assert(r1 =~= field(key_name(), p.name) + r2);
    lemma_p_field_rendered(key_name(), p.name, r2);
    let r3 = field(key_version(), p.version) + seq![','] + field(key_path(), p.path) + seq![',']
        + field(key_args(), p.args) + seq!['}'] + rest;
    assert(r2 =~= seq![','] + r3);
    lemma_p_char_prefix(',', r3);
    let r4 = seq![','] + field(key_path(), p.path) + seq![','] + field(key_args(), p.args)
        + seq!['}'] + rest;
    assert(r3 =~= field(key_version(), p.version) + r4);
    lemma_p_field_rendered(key_version(), p.version, r4);
    let r5 = field(key_path(), p.path) + seq![','] + field(key_args(), p.args) + seq!['}'] + rest;
    assert(r4 =~= seq![','] + r5);
    lemma_p_char_prefix(',', r5);
    lemma_p_profile_rendered_back(p, rest);
    assert(p_profile(whole) == Some(
        (ProfileView { name: p.name, version: p.version, path: p.path, args: p.args }, rest),
    ));
    assert(ProfileView { name: p.name, version: p.version, path: p.path, args: p.args } =~= p);
}

/// Parsing the rendered tail of an array gives back its profiles.
#[verifier::rlimit(100)]
proof fn lemma_p_rest_rendered(ps: Seq<ProfileView>)
    ensures
        p_rest(json_tail(ps)) == Some((ps, Seq::<char>::empty())),
    decreases ps.len(),
{
    if ps.len() == 0 {
        let whole = json_tail(ps);
        assert(whole == seq![']']);
        assert(whole[0] == ']');
        assert(whole.drop_first() =~= Seq::<char>::empty());
        assert(Seq::<ProfileView>::empty() =~= ps);
    } else {
        let whole = json_tail(ps);
        let tail = ps.drop_first();
        let r1 = json_of_profile(ps[0]) + json_tail(tail);
        assert(whole == seq![','] + r1);
        assert(whole[0] == ',');
        assert(whole.len() > 0);
        assert(whole.drop_first() =~= r1);
        lemma_p_profile_rendered(ps[0], json_tail(tail));
        lemma_p_rest_rendered(tail);
        assert(p_rest(whole) == Some((seq![ps[0]] + tail, Seq::<char>::empty())));
        assert(seq![ps[0]] + tail =~= ps);
    }
}

/// Round trip: rendering any ordered list of profiles and parsing the
/// result gives back exactly that list, field for field.
#[verifier::rlimit(100)]
pub proof fn lemma_round_trip(ps: Seq<ProfileView>)
    ensures
        p_top(json_of(ps)) == Some(ps),
{
    let whole = json_of(ps);
    if ps.len() == 0 {
        assert(whole == seq!['[', ']']);
        assert(whole[0] == '[');
        let t = whole.drop_first();
        assert(t =~= seq![']']);
        assert(t[0] == ']' && t.len() == 1);
        assert(p_top(whole) == Some(Seq::<ProfileView>::empty()));
        assert(Seq::<ProfileView>::empty() =~= ps);
    } else {
        let tail = ps.drop_first();
        let t = json_of_profile(ps[0]) + json_tail(tail);
        assert(whole == seq!['['] + t);
        assert(whole[0] == '[');
        assert(whole.drop_first() =~= t);
        lemma_p_profile_rendered(ps[0], json_tail(tail));
        assert(t[0] == '{');
        assert(t[0] != ']');
        lemma_p_rest_rendered(tail);
        assert(p_top(whole) == Some(seq![ps[0]] + tail));
        assert(seq![ps[0]] + tail =~= ps);
    }
}

// ---------------------------------------------------------------------
// Rendering, executable.
// ---------------------------------------------------------------------
/// Escaping distributes over concatenation.
proof fn lemma_esc_append(a: Seq<char>, b: Seq<char>)
    ensures
        esc(a + b) == esc(a) + esc(b),
    decreases a.len(),
{
    if a.len() == 0 {
        assert(a + b =~= b);
        assert(esc(a) + esc(b) =~= esc(b));
    } else {
        assert((a + b).len() > 0);
        assert((a + b)[0] == a[0]);
        assert((a + b).drop_first() =~= a.drop_first() + b);
        lemma_esc_append(a.drop_first(), b);
        assert(esc_char(a[0]) + (esc(a.drop_first()) + esc(b)) =~= (esc_char(a[0]) + esc(
            a.drop_first(),
        )) + esc(b));
    }
}

/// Escaping one character alone gives its escape form.
proof fn lemma_esc_singleton(c: char)
    ensures
        esc(seq![c]) == esc_char(c),
{
    assert(seq![c].len() == 1);
    assert(seq![c][0] == c);
    assert(seq![c].drop_first() =~= Seq::<char>::empty());
    assert(esc(seq![c]) == esc_char(c) + esc(Seq::<char>::empty()));
    assert(esc_char(c) + Seq::<char>::empty() =~= esc_char(c));
}

/// Appends the characters of `lit` to `out`.
fn emit_lit(out: &mut Vec<char>, lit: &str)
    ensures
        final(out)@ == old(out)@ + lit@,
{
    let n: usize = lit.unicode_len();
    proof {
        assert(out@ =~= old(out)@ + lit@.subrange(0, 0));
    }
    let mut j: usize = 0;
    while j < n
        invariant
            n == lit@.len(),
            j <= n,
            out@ == old(out)@ + lit@.subrange(0, j as int),
        decreases n - j,
    {
        out.push(lit.get_char(j));
        proof {
            assert(lit@.subrange(0, j as int + 1) =~= lit@.subrange(0, j as int).push(
                lit@[j as int],
            ));
            assert(old(out)@ + lit@.subrange(0, j as int).push(lit@[j as int]) =~= (old(out)@
                + lit@.subrange(0, j as int)).push(lit@[j as int]));
        }
        j = j + 1;
    }
    proof {
        assert(lit@.subrange(0, n as int) =~= lit@);
    }
}

/// Appends the quoted, escaped rendering of `s` to `out`.
fn emit_quoted(out: &mut Vec<char>, s: &str)
    ensures
        final(out)@ == old(out)@ + quoted(s@),
{
    out.push('"');
    proof {
        assert(out@ =~= old(out)@ + seq!['"'] + esc(s@.subrange(0, 0)));
    }
    let n: usize = s.unicode_len();
    let mut i: usize = 0;
    while i < n
        invariant
            n == s@.len(),
            i <= n,
            out@ == old(out)@ + seq!['"'] + esc(s@.subrange(0, i as int)),
        decreases n - i,
    {
        let c = s.get_char(i);
        proof {
            assert(s@.subrange(0, i as int + 1) =~= s@.subrange(0, i as int) + seq![c]);
            lemma_esc_append(s@.subrange(0, i as int), seq![c]);
            lemma_esc_singleton(c);
        }
        if c == '"' {
            out.push('\\');
            out.push('"');
        } else if c == '\\' {
            out.push('\\');
            out.push('\\');
        } else if c == '\n' {
            out.push('\\');
            out.push('n');
        } else if c == '\r' {
            out.push('\\');
            out.push('r');
        } else if c == '\t' {
            out.push('\\');
            out.push('t');
        } else if c == '\u{8}' {
            out.push('\\');
            out.push('b');
        } else if c == '\u{c}' {
            out.push('\\');
            out.push('f');
        } else {
            out.push(c);
        }
        proof {
            assert(out@ =~= old(out)@ + seq!['"'] + esc(s@.subrange(0, i as int + 1)));
        }
        i = i + 1;
    }
    out.push('"');
    proof {
        assert(s@.subrange(0, n as int) =~= s@);
        assert(out@ =~= old(out)@ + quoted(s@));
    }
}

/// Appends the rendered object form of `p` to `out`.
#[verifier::rlimit(100)]
fn emit_profile(out: &mut Vec<char>, p: &ServerConfig)
    ensures
        final(out)@ == old(out)@ + json_of_profile(p@),
{
    out.push('{');
    emit_lit(out, "\"name\":");
    emit_quoted(out, p.name.as_str());
    out.push(',');
    emit_lit(out, "\"version\":");
    emit_quoted(out, p.version.as_str());
    out.push(',');
    emit_lit(out, "\"path\":");
    emit_quoted(out, p.path.as_str());
    out.push(',');
    emit_lit(out, "\"args\":");
    emit_quoted(out, p.args.as_str());
    out.push('}');
    proof {
        assert(out@ =~= old(out)@ + json_of_profile(p@));
    }
}

impl Config {
    /// The registry rendered in the persistence format.
    pub fn to_json(&self) -> (r: String)
        ensures
            r@ == json_of(self@),
    {
        let mut out: Vec<char> = Vec::new();
        out.push('[');
        let n: usize = self.servers.len();
        if n == 0 {
            out.push(']');
            proof {
                assert(out@ =~= json_of(self@));
            }
            return string_from_chars(&out);
        }
        emit_profile(&mut out, &self.servers[0]);
        proof {
            assert(self@[0] == self.servers@[0]@);
            assert(out@ =~= seq!['['] + json_of_profile(self@[0]));
            assert(json_of(self@) =~= out@ + json_tail(self@.skip(1)));
        }
        let mut i: usize = 1;
        while i < n
            invariant
                1 <= i <= n,
                n == self.servers@.len(),
                n == self@.len(),
                json_of(self@) == out@ + json_tail(self@.skip(i as int)),
            decreases n - i,
        {
            let ghost out0 = out@;
            out.push(',');
            emit_profile(&mut out, &self.servers[i]);
            proof {
                let tail_i = self@.skip(i as int);
                assert(self@[i as int] == self.servers@[i as int]@);
                assert(tail_i[0] == self@[i as int]);
                assert(tail_i.drop_first() =~= self@.skip(i as int + 1));
                assert(json_tail(tail_i) == seq![','] + json_of_profile(self@[i as int])
                    + json_tail(self@.skip(i as int + 1)));
                assert(out@ =~= out0.push(',') + json_of_profile(self@[i as int]));
                assert(out0 + json_tail(tail_i) =~= out@ + json_tail(self@.skip(i as int + 1)));
            }
            i = i + 1;
        }
        proof {
            assert(self@.skip(n as int) =~= Seq::<ProfileView>::empty());
            assert(json_tail(self@.skip(n as int)) == seq![']']);
            assert(json_of(self@) =~= out@.push(']'));
        }
        out.push(']');
        string_from_chars(&out)
    }
}

// ---------------------------------------------------------------------
// Parsing, executable.
// ---------------------------------------------------------------------
/// A document that `from_json` rejected: not the compact rendering of
/// any registry.
#[derive(Clone, Copy, Debug, PartialEq, Eq, Structural)]
pub struct ParseError;

/// The character an escape code stands for, if the code is recognized.
fn unescape_char(c: char) -> (r: Option<char>)
    ensures
        r == unesc_char(c),
{
    if c == '"' {
        Some('"')
    } else if c == '\\' {
        Some('\\')
    } else if c == '/' {
        Some('/')
    } else if c == 'n' {
        Some('\n')
    } else if c == 'r' {
        Some('\r')
    } else if c == 't' {
        Some('\t')
    } else if c == 'b' {
        Some('\u{8}')
    } else if c == 'f' {
        Some('\u{c}')
    } else {
        None
    }
}

/// Consumes one expected character at `pos`.
fn px_char(cs: &Vec<char>, pos: usize, c: char) -> (r: Option<usize>)
    requires
        pos <= cs@.len(),
    ensures
        match r {
            Some(np) => pos < np <= cs@.len() && p_char(cs@.skip(pos as int), c) == Some(
                cs@.skip(np as int),
            ),
            None => p_char(cs@.skip(pos as int), c) is None,
        },
{
    proof {
        if pos < cs@.len() {
            assert(cs@.skip(pos as int)[0] == cs@[pos as int]);
        }
    }
    if pos < cs.len() && cs[pos] == c {
        proof {
            assert(cs@.skip(pos as int).drop_first() =~= cs@.skip(pos as int + 1));
        }
        Some(pos + 1)
    } else {
        None
    }
}

/// Consumes an expected literal at `pos`.
fn px_lit(cs: &Vec<char>, pos: usize, lit: &str) -> (r: Option<usize>)
    requires
        pos <= cs@.len(),
    ensures
        match r {
            Some(np) => pos <= np <= cs@.len() && p_lit(cs@.skip(pos as int), lit@) == Some(
                cs@.skip(np as int),
            ),
            None => p_lit(cs@.skip(pos as int), lit@) is None,
        },
{
    let n: usize = lit.unicode_len();
    if n > cs.len() - pos {
        proof {
            assert(lit@.len() > cs@.skip(pos as int).len());
        }
        return None;
    }
    let mut j: usize = 0;
    while j < n
        invariant
            pos <= cs@.len(),
            n == lit@.len(),
            j <= n,
            n <= cs@.len() - pos,
            forall|k: int| 0 <= k < j ==> cs@.skip(pos as int)[k] == lit@[k],
        decreases n - j,
    {
        let lc = lit.get_char(j);
        proof {
            assert(cs@.len() == cs.len());
            assert(pos + j < cs@.len());
            assert(cs@.skip(pos as int)[j as int] == cs@[pos + j]);
        }
        if cs[pos + j] != lc {
            proof {
                let s = cs@.skip(pos as int);
                assert(s.subrange(0, lit@.len() as int)[j as int] == s[j as int]);
            }
            return None;
        }
        j = j + 1;
    }
    proof {
        let s = cs@.skip(pos as int);
        assert(s.subrange(0, n as int) =~= lit@);
        assert(s.skip(n as int) =~= cs@.skip(pos as int + n));
    }
    Some(pos + n)
}

/// What remains to be parsed of a string body once `a` has been taken.
spec fn sb_compose(a: Seq<char>, o: Option<(Seq<char>, Seq<char>)>) -> Option<
    (Seq<char>, Seq<char>),
> {
    match o {
        Some(tr) => Some((a + tr.0, tr.1)),
        None => None,
    }
}

/// Consumes a whole quoted string at `pos` and yields its unescaped
/// content.
fn px_string(cs: &Vec<char>, pos: usize) -> (r: Option<(String, usize)>)
    requires
        pos <= cs@.len(),
    ensures
        match r {
            Some(p) => pos < p.1 <= cs@.len() && p_string(cs@.skip(pos as int)) == Some(
                (p.0@, cs@.skip(p.1 as int)),
            ),
            None => p_string(cs@.skip(pos as int)) is None,
        },
{
    proof {
        if pos < cs@.len() {
            assert(cs@.skip(pos as int)[0] == cs@[pos as int]);
        }
    }
    if pos == cs.len() {
        return None;
    }
    if cs[pos] != '"' {
        return None;
    }
    proof {
        assert(cs@.skip(pos as int).drop_first() =~= cs@.skip(pos as int + 1));
    }
    let mut out = String::new();
    let mut i: usize = pos + 1;
    loop
        invariant
            pos < cs@.len(),
            pos + 1 <= i <= cs@.len(),
            cs@[pos as int] == '"',
            p_string(cs@.skip(pos as int)) == sb_compose(out@, p_str_body(cs@.skip(i as int))),
        decreases cs@.len() - i,
    {
        if i == cs.len() {
            proof {
                assert(cs@.skip(i as int).len() == 0);
            }
            return None;
        }
        let c = cs[i];
        proof {
            assert(cs@.skip(i as int)[0] == cs@[i as int]);
            assert(cs@.skip(i as int).drop_first() =~= cs@.skip(i as int + 1));
        }
        if c == '"' {
            proof {
                assert(p_str_body(cs@.skip(i as int)) == Some(
                    (Seq::<char>::empty(), cs@.skip(i as int + 1)),
                ));
                assert(out@ + Seq::<char>::empty() =~= out@);
            }
            return Some((out, i + 1));
        } else if c == '\\' {
            if i + 1 == cs.len() {
                proof {
                    assert(cs@.skip(i as int).len() < 2);
                }
                return None;
            }
            let e = cs[i + 1];
            proof {
                assert(cs@.skip(i as int)[1] == cs@[i as int + 1]);
            }
            match unescape_char(e) {
                Some(d) => {
                    proof {
                        assert(cs@.skip(i as int).skip(2) =~= cs@.skip(i as int + 2));
                    }
                    let ghost out0 = out@;
                    push_char(&mut out, d);
                    proof {
                        match p_str_body(cs@.skip(i as int + 2)) {
                            Some(tr) => {
                                assert(p_str_body(cs@.skip(i as int)) == Some(
                                    (seq![d] + tr.0, tr.1),
                                ));
                                assert(out0 + (seq![d] + tr.0) =~= out@ + tr.0);
                            },
                            None => {},
                        }
                    }
                    i = i + 2;
                },
                None => {
                    return None;
                },
            }
        } else {
            let ghost out0 = out@;
            push_char(&mut out, c);
            proof {
                match p_str_body(cs@.skip(i as int + 1)) {
                    Some(tr) => {
                        assert(p_str_body(cs@.skip(i as int)) == Some((seq![c] + tr.0, tr.1)));
                        assert(out0 + (seq![c] + tr.0) =~= out@ + tr.0);
                    },
                    None => {},
                }
            }
            i = i + 1;
        }
    }
}

/// Consumes one `key:"value"` pair at `pos`.
fn px_field(cs: &Vec<char>, pos: usize, key: &str) -> (r: Option<(String, usize)>)
    requires
        pos <= cs@.len(),
    ensures
        match r {
            Some(p) => pos < p.1 <= cs@.len() && p_field(cs@.skip(pos as int), key@) == Some(
                (p.0@, cs@.skip(p.1 as int)),
            ),
            None => p_field(cs@.skip(pos as int), key@) is None,
        },
{
    match px_lit(cs, pos, key) {
        Some(np) => px_string(cs, np),
        None => None,
    }
}

/// Consumes one profile object at `pos`.
#[verifier::rlimit(100)]
fn px_profile(cs: &Vec<char>, pos: usize) -> (r: Option<(ServerConfig, usize)>)
    requires
        pos <= cs@.len(),
    ensures
        match r {
            Some(p) => pos < p.1 <= cs@.len() && p_profile(cs@.skip(pos as int)) == Some(
                (p.0@, cs@.skip(p.1 as int)),
            ),
            None => p_profile(cs@.skip(pos as int)) is None,
        },
{
    let s1 = match px_char(cs, pos, '{') {
        Some(v) => v,
        None => {
            return None;
        },
    };
    let (name, s2) = match px_field(cs, s1, "\"name\":") {
        Some(v) => v,
        None => {
            return None;
        },
    };
    let s3 = match px_char(cs, s2, ',') {
        Some(v) => v,
        None => {
            return None;
        },
    };
    let (version, s4) = match px_field(cs, s3, "\"version\":") {
        Some(v) => v,
        None => {
            return None;
        },
    };
    let s5 = match px_char(cs, s4, ',') {
        Some(v) => v,
        None => {
            return None;
        },
    };
    let (path, s6) = match px_field(cs, s5, "\"path\":") {
        Some(v) => v,
        None => {
            return None;
        },
    };
    let s7 = match px_char(cs, s6, ',') {
        Some(v) => v,
        None => {
            return None;
        },
    };
    let (args, s8) = match px_field(cs, s7, "\"args\":") {
        Some(v) => v,
        None => {
            return None;
        },
    };
    let s9 = match px_char(cs, s8, '}') {
        Some(v) => v,
        None => {
            return None;
        },
    };
    let p = ServerConfig { name, version, path, args };
    proof {
        assert(p@ =~= p_profile(cs@.skip(pos as int))->Some_0.0);
    }
    Some((p, s9))
}

impl Config {
    /// Parses a document in the persistence format. Returns the parsed
    /// registry exactly when the document is the rendering of one;
    /// every other document is rejected with `ParseError`.
    #[verifier::rlimit(100)]
    pub fn from_json(s: &str) -> (r: Result<Config, ParseError>)
        ensures
            match r {
                Ok(c) => p_top(s@) == Some(c@),
                Err(e) => p_top(s@) is None,
            },
    {
        let cs = chars_of(s);
        proof {
            assert(cs@.skip(0) =~= cs@);
        }
        let pos0 = match px_char(&cs, 0, '[') {
            Some(v) => v,
            None => {
                return Err(ParseError);
            },
        };
        let ghost t = cs@.skip(pos0 as int);
        proof {
            if pos0 < cs@.len() {
                assert(t[0] == cs@[pos0 as int]);
            }
        }
        if pos0 < cs.len() && cs[pos0] == ']' {
            if pos0 + 1 == cs.len() {
                proof {
                    assert(t.len() == 1);
                }
                let c = Config::new();
                return Ok(c);
            } else {
                proof {
                    assert(t.len() != 1);
                }
                return Err(ParseError);
            }
        }
        proof {
            assert(!(t.len() > 0 && t[0] == ']'));
        }
        let (p0, pos1) = match px_profile(&cs, pos0) {
            Some(v) => v,
            None => {
                return Err(ParseError);
            },
        };
        let ghost p0v = p0@;
        let mut servers: Vec<ServerConfig> = Vec::new();
        servers.push(p0);
        proof {
            assert(views_of(servers@) =~= seq![p0v]);
            assert(views_of(servers@)[0] == p0v);
            assert(views_of(servers@).drop_first() =~= Seq::<ProfileView>::empty());
        }
        let mut pos: usize = pos1;
        loop
            invariant
                cs@ == s@,
                pos0 <= cs@.len(),
                pos1 <= cs@.len(),
                pos <= cs@.len(),
                p_char(cs@, '[') == Some(cs@.skip(pos0 as int)),
                !(cs@.skip(pos0 as int).len() > 0 && cs@.skip(pos0 as int)[0] == ']'),
                servers@.len() >= 1,
                views_of(servers@)[0] == p0v,
                p_profile(cs@.skip(pos0 as int)) == Some((p0v, cs@.skip(pos1 as int))),
                match p_rest(cs@.skip(pos as int)) {
                    Some(pr) => p_rest(cs@.skip(pos1 as int)) == Some(
                        (views_of(servers@).drop_first() + pr.0, pr.1),
                    ),
                    None => p_rest(cs@.skip(pos1 as int)) is None,
                },
            decreases cs@.len() - pos,
        {
            if pos == cs.len() {
                proof {
                    assert(cs@.skip(pos as int).len() == 0);
                }
                return Err(ParseError);
            }
            let c = cs[pos];
            proof {
                assert(cs@.skip(pos as int)[0] == cs@[pos as int]);
                assert(cs@.skip(pos as int).drop_first() =~= cs@.skip(pos as int + 1));
            }
            if c == ']' {
                proof {
                    assert(p_rest(cs@.skip(pos as int)) == Some(
                        (Seq::<ProfileView>::empty(), cs@.skip(pos as int + 1)),
                    ));
                    assert(views_of(servers@).drop_first() + Seq::<ProfileView>::empty()
                        =~= views_of(servers@).drop_first());
                    assert(seq![p0v] + views_of(servers@).drop_first() =~= views_of(servers@));
                }
                if pos + 1 == cs.len() {
                    proof {
                        assert(cs@.skip(pos as int + 1).len() == 0);
                    }
                    let c2 = Config { servers };
                    return Ok(c2);
                } else {
                    proof {
                        assert(cs@.skip(pos as int + 1).len() != 0);
                    }
                    return Err(ParseError);
                }
            } else if c == ',' {
                match px_profile(&cs, pos + 1) {
                    Some((p, np)) => {
                        let ghost pv = p@;
                        let ghost vs0 = views_of(servers@);
                        servers.push(p);
                        proof {
                            assert(views_of(servers@) =~= vs0.push(pv));
                            assert(views_of(servers@)[0] == p0v);
                            assert(views_of(servers@).drop_first() =~= vs0.drop_first().push(pv));
                            match p_rest(cs@.skip(np as int)) {
                                Some(pr) => {
                                    assert(p_rest(cs@.skip(pos as int)) == Some(
                                        (seq![pv] + pr.0, pr.1),
                                    ));
                                    assert(vs0.drop_first() + (seq![pv] + pr.0) =~= views_of(
                                        servers@,
                                    ).drop_first() + pr.0);
                                },
                                None => {},
                            }
                        }
                        pos = np;
                    },
                    None => {
                        return Err(ParseError);
                    },
                }
            } else {
                return Err(ParseError);
            }
        }
    }
}

} // verus!
