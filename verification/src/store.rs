//! The storage format: a pretty-printed JSON array of profile objects with
//! a stable field order, rendered and parsed character by character. The
//! parser accepts exactly what the renderer writes, and reading back a
//! rendered collection gives the collection.

use vstd::prelude::*;
use vstd::string::*;
use crate::profile::{Profile, ProfileV};
use crate::numbers::{dec_of, val_of, all_digits, is_digit, u16_to_string, lemma_dec_of_val};
use crate::ops::views;
use crate::strings::{escaped, escape_str, lemma_escaped_front, push_char, str_to_chars};

verus! {

/// The opening of a non-empty array.
pub open spec fn tok_open() -> Seq<char> {
    "[\n"@
}

/// The closing of a non-empty array.
pub open spec fn tok_close() -> Seq<char> {
    "\n]"@
}

/// The whole empty array.
pub open spec fn tok_empty() -> Seq<char> {
    "[]"@
}

/// The opening of an object up to its first value.
pub open spec fn tok_name() -> Seq<char> {
    "  {\n    \"name\": "@
}

/// The key between the name and host values.
pub open spec fn tok_host() -> Seq<char> {
    ",\n    \"host\": "@
}

/// The key between the host and port values.
pub open spec fn tok_port() -> Seq<char> {
    ",\n    \"port\": "@
}

/// The key between the port and username values.
pub open spec fn tok_user() -> Seq<char> {
    ",\n    \"username\": "@
}

/// The key between the username and welcome values.
pub open spec fn tok_welcome() -> Seq<char> {
    ",\n    \"welcome_message\": "@
}

/// The closing of an object.
pub open spec fn tok_item_end() -> Seq<char> {
    "\n  }"@
}

/// The separator between two objects.
pub open spec fn tok_sep() -> Seq<char> {
    ",\n"@
}

/// The literal for an absent welcome message.
pub open spec fn tok_null() -> Seq<char> {
    "null"@
}

/// A JSON string: the escaped text between double quotes.
pub open spec fn jstr_of(s: Seq<char>) -> Seq<char> {
    seq!['"'] + escaped(s) + seq!['"']
}

/// A welcome message value: a JSON string, or `null` when absent.
pub open spec fn jwelcome_of(w: Option<Seq<char>>) -> Seq<char> {
    match w {
        Some(s) => jstr_of(s),
        None => tok_null(),
    }
}

/// One rendered profile object.
pub open spec fn render_profile_of(p: ProfileV) -> Seq<char> {
    tok_name() + jstr_of(p.name) + tok_host() + jstr_of(p.host) + tok_port() + dec_of(
        p.port as int,
    ) + tok_user() + jstr_of(p.username) + tok_welcome() + jwelcome_of(p.welcome_message)
        + tok_item_end()
}

/// The rendered objects of a non-empty collection, separated by commas.
pub open spec fn render_items_of(ps: Seq<ProfileV>) -> Seq<char>
    recommends
        ps.len() >= 1,
    decreases ps.len(),
{
    if ps.len() <= 1 {
        render_profile_of(ps[0])
    } else {
        render_profile_of(ps[0]) + tok_sep() + render_items_of(ps.drop_first())
    }
}

/// The whole rendered storage document.
pub open spec fn render_store_of(ps: Seq<ProfileV>) -> Seq<char> {
    if ps.len() == 0 {
        tok_empty()
    } else {
        tok_open() + render_items_of(ps) + tok_close()
    }
}

/// Appending a profile appends one rendered object after a separator.
pub proof fn lemma_render_items_push(ps: Seq<ProfileV>, p: ProfileV)
    requires
        ps.len() >= 1,
    ensures
        render_items_of(ps.push(p)) == render_items_of(ps) + tok_sep() + render_profile_of(p),
    decreases ps.len(),
{
    if ps.len() == 1 {
        assert(ps.push(p)[0] == ps[0]);
        assert(ps.push(p).drop_first() =~= seq![p]);
        assert(render_items_of(seq![p]) == render_profile_of(p));
        assert(render_items_of(ps.push(p)) =~= render_items_of(ps) + tok_sep()
            + render_profile_of(p));
    } else {
        lemma_render_items_push(ps.drop_first(), p);
        assert(ps.push(p).drop_first() =~= ps.drop_first().push(p));
        assert(ps.push(p)[0] == ps[0]);
        assert(render_items_of(ps.push(p)) =~= render_items_of(ps) + tok_sep()
            + render_profile_of(p));
    }
}

/// Appends a JSON string value: the escaped text between double quotes.
fn append_jstr(s: &mut String, text: &str)
    ensures
        final(s)@ == old(s)@ + jstr_of(text@),
{
    push_char(s, '"');
    let e = escape_str(text);
    s.append(e.as_str());
    push_char(s, '"');
    proof {
        assert(s@ =~= old(s)@ + jstr_of(text@));
    }
}

/// Renders one profile object.
fn render_profile(p: &Profile) -> (r: String)
    ensures
        r@ == render_profile_of(p@),
{
    let mut s = String::new();
    s.append("  {\n    \"name\": ");
    append_jstr(&mut s, p.name.as_str());
    s.append(",\n    \"host\": ");
    append_jstr(&mut s, p.host.as_str());
    s.append(",\n    \"port\": ");
    s.append(u16_to_string(p.port).as_str());
    s.append(",\n    \"username\": ");
    append_jstr(&mut s, p.username.as_str());
    s.append(",\n    \"welcome_message\": ");
    match &p.welcome_message {
        Some(w) => {
            append_jstr(&mut s, w.as_str());
        },
        None => {
            s.append("null");
        },
    }
    s.append("\n  }");
    proof {
        assert(s@ =~= render_profile_of(p@));
    }
    s
}

/// Renders the whole collection in the storage format.
pub fn save_connections(conns: &Vec<Profile>) -> (r: String)
    ensures
        r@ == render_store_of(views(conns@)),
{
    if conns.len() == 0 {
        let r = "[]".to_owned();
        proof {
            assert(views(conns@) =~= Seq::<ProfileV>::empty());
        }
        return r;
    }
    let mut s = String::new();
    s.append("[\n");
    s.append(render_profile(&conns[0]).as_str());
    proof {
        assert(views(conns@.take(1))[0] == conns@[0]@);
        assert(render_items_of(views(conns@.take(1))) == render_profile_of(conns@[0]@));
        assert(s@ =~= tok_open() + render_items_of(views(conns@.take(1))));
    }
    let mut i: usize = 1;
    while i < conns.len()
        invariant
            1 <= i <= conns@.len(),
            s@ == tok_open() + render_items_of(views(conns@.take(i as int))),
        decreases conns@.len() - i,
    {
        s.append(",\n");
        s.append(render_profile(&conns[i]).as_str());
        proof {
            assert(views(conns@.take(i as int)).len() == i);
            lemma_render_items_push(views(conns@.take(i as int)), conns@[i as int]@);
            assert(views(conns@.take(i + 1)) =~= views(conns@.take(i as int)).push(
                conns@[i as int]@,
            ));
            assert(s@ =~= tok_open() + render_items_of(views(conns@.take(i + 1))));
        }
        i += 1;
    }
    s.append("\n]");
    proof {
        assert(conns@.take(conns@.len() as int) =~= conns@);
        assert(views(conns@).len() > 0);
        assert(s@ =~= render_store_of(views(conns@)));
    }
    s
}

/// Consumes an expected literal from the front.
pub open spec fn parse_lit(s: Seq<char>, lit: Seq<char>) -> Option<Seq<char>> {
    if s.len() >= lit.len() && s.take(lit.len() as int) == lit {
        Some(s.skip(lit.len() as int))
    } else {
        None
    }
}

/// Consumes a quoted string's body up to its closing quote, undoing the
/// escapes; fails on a stray backslash or a missing closing quote.
pub open spec fn parse_str_body(s: Seq<char>) -> Option<(Seq<char>, Seq<char>)>
    decreases s.len(),
{
    if s.len() == 0 {
        None
    } else if s[0] == '"' {
        Some((Seq::<char>::empty(), s.skip(1)))
    } else if s[0] == '\\' {
        if s.len() >= 2 && (s[1] == '"' || s[1] == '\\') {
            match parse_str_body(s.skip(2)) {
                Some(p) => Some((seq![s[1]] + p.0, p.1)),
                None => None,
            }
        } else {
            None
        }
    } else {
        match parse_str_body(s.skip(1)) {
            Some(p) => Some((seq![s[0]] + p.0, p.1)),
            None => None,
        }
    }
}

/// Consumes a JSON string: a double quote, the body, the closing quote.
pub open spec fn parse_jstr(s: Seq<char>) -> Option<(Seq<char>, Seq<char>)> {
    if s.len() > 0 && s[0] == '"' {
        parse_str_body(s.skip(1))
    } else {
        None
    }
}

/// How many decimal digits stand at the front.
pub open spec fn digit_prefix_len(s: Seq<char>) -> int
    decreases s.len(),
{
    if s.len() > 0 && is_digit(s[0]) {
        1 + digit_prefix_len(s.skip(1))
    } else {
        0
    }
}

/// Consumes a port number: the leading digit run, which must be non-empty
/// and denote a value that fits in sixteen bits.
pub open spec fn parse_port(s: Seq<char>) -> Option<(u16, Seq<char>)> {
    let k = digit_prefix_len(s);
    if k >= 1 && val_of(s.take(k)) <= 65535 {
        Some((val_of(s.take(k)) as u16, s.skip(k)))
    } else {
        None
    }
}

/// Consumes a welcome value: `null`, or a JSON string.
pub open spec fn parse_jwelcome(s: Seq<char>) -> Option<(Option<Seq<char>>, Seq<char>)> {
    match parse_lit(s, tok_null()) {
        Some(rest) => Some((None, rest)),
        None => match parse_jstr(s) {
            Some(p) => Some((Some(p.0), p.1)),
            None => None,
        },
    }
}

/// Consumes one profile object.
pub open spec fn parse_profile(s: Seq<char>) -> Option<(ProfileV, Seq<char>)> {
    match parse_lit(s, tok_name()) {
        None => None,
        Some(s1) => match parse_jstr(s1) {
            None => None,
            Some((name, s2)) => match parse_lit(s2, tok_host()) {
                None => None,
                Some(s3) => match parse_jstr(s3) {
                    None => None,
                    Some((host, s4)) => match parse_lit(s4, tok_port()) {
                        None => None,
                        Some(s5) => match parse_port(s5) {
                            None => None,
                            Some((port, s6)) => match parse_lit(s6, tok_user()) {
                                None => None,
                                Some(s7) => match parse_jstr(s7) {
                                    None => None,
                                    Some((username, s8)) => match parse_lit(s8, tok_welcome()) {
                                        None => None,
                                        Some(s9) => match parse_jwelcome(s9) {
                                            None => None,
                                            Some((welcome, s10)) => match parse_lit(
                                                s10,
                                                tok_item_end(),
                                            ) {
                                                None => None,
                                                Some(s11) => Some(
                                                    (
                                                        ProfileV {
                                                            name,
                                                            host,
                                                            port,
                                                            username,
                                                            welcome_message: welcome,
                                                        },
                                                        s11,
                                                    ),
                                                ),
                                            },
                                        },
                                    },
                                },
                            },
                        },
                    },
                },
            },
        },
    }
}

/// A successful string-body parse consumes at least the closing quote.
proof fn lemma_str_body_consumes(s: Seq<char>)
    ensures
        parse_str_body(s) matches Some(p) ==> p.1.len() < s.len(),
    decreases s.len(),
{
    if s.len() == 0 {
    } else if s[0] == '"' {
    } else if s[0] == '\\' {
        if s.len() >= 2 && (s[1] == '"' || s[1] == '\\') {
            lemma_str_body_consumes(s.skip(2));
        }
    } else {
        lemma_str_body_consumes(s.skip(1));
    }
}

/// The digit run never reaches past the end.
proof fn lemma_dpl_bounds(s: Seq<char>)
    ensures
        0 <= digit_prefix_len(s) <= s.len(),
    decreases s.len(),
{
    if s.len() > 0 && is_digit(s[0]) {
        lemma_dpl_bounds(s.skip(1));
    }
}

/// A successful profile parse consumes at least one character.
proof fn lemma_parse_profile_consumes(s: Seq<char>)
    ensures
        parse_profile(s) matches Some(p) ==> p.1.len() < s.len(),
{
    reveal_strlit("  {\n    \"name\": ");
    if let Some(s1) = parse_lit(s, tok_name()) {
        assert(s1.len() < s.len());
        if let Some((name, s2)) = parse_jstr(s1) {
            lemma_str_body_consumes(s1.skip(1));
            if let Some(s3) = parse_lit(s2, tok_host()) {
                if let Some((host, s4)) = parse_jstr(s3) {
                    lemma_str_body_consumes(s3.skip(1));
                    if let Some(s5) = parse_lit(s4, tok_port()) {
                        if let Some((port, s6)) = parse_port(s5) {
                            lemma_dpl_bounds(s5);
                            if let Some(s7) = parse_lit(s6, tok_user()) {
                                if let Some((username, s8)) = parse_jstr(s7) {
                                    lemma_str_body_consumes(s7.skip(1));
                                    if let Some(s9) = parse_lit(s8, tok_welcome()) {
                                        if let Some((welcome, s10)) = parse_jwelcome(s9) {
                                            lemma_str_body_consumes(s9.skip(1));
                                            if let Some(s11) = parse_lit(s10, tok_item_end()) {
                                                assert(s11.len() < s.len());
                                            }
                                        }
                                    }
                                }
                            }
                        }
                    }
                }
            }
        }
    }
}

/// Consumes the comma-separated profile objects, one or more.
pub open spec fn parse_items(s: Seq<char>) -> Option<(Seq<ProfileV>, Seq<char>)>
    decreases s.len(),
    via parse_items_dec
{
    match parse_profile(s) {
        None => None,
        Some((p, rest)) => match parse_lit(rest, tok_sep()) {
            Some(rest2) => match parse_items(rest2) {
                Some((ps, rest3)) => Some((seq![p] + ps, rest3)),
                None => None,
            },
            None => Some((seq![p], rest)),
        },
    }
}

#[via_fn]
proof fn parse_items_dec(s: Seq<char>) {
    lemma_parse_profile_consumes(s);
}

/// The whole storage document: the empty array, or the bracketed items
/// with nothing after the closing bracket.
pub open spec fn parse_store_spec(s: Seq<char>) -> Option<Seq<ProfileV>> {
    if s == tok_empty() {
        Some(Seq::<ProfileV>::empty())
    } else {
        match parse_lit(s, tok_open()) {
            None => None,
            Some(r) => match parse_items(r) {
                Some((ps, rest)) => if rest == tok_close() {
                    Some(ps)
                } else {
                    None
                },
                None => None,
            },
        }
    }
}

/// A literal followed by anything parses back to that anything.
proof fn lemma_parse_lit_round(lit: Seq<char>, rest: Seq<char>)
    ensures
        parse_lit(lit + rest, lit) == Some(rest),
{
    assert((lit + rest).take(lit.len() as int) =~= lit);
    assert((lit + rest).skip(lit.len() as int) =~= rest);
}

/// An escaped body, closing quote and tail parse back to the body and tail.
proof fn lemma_str_body_round(x: Seq<char>, rest: Seq<char>)
    ensures
        parse_str_body(escaped(x) + seq!['"'] + rest) == Some((x, rest)),
    decreases x.len(),
{
    let s = escaped(x) + seq!['"'] + rest;
    if x.len() == 0 {
        assert(escaped(x) =~= Seq::<char>::empty());
        assert(s[0] == '"');
        assert(s.skip(1) =~= rest);
        assert(parse_str_body(s) == Some((Seq::<char>::empty(), rest)));
    } else {
        lemma_escaped_front(x);
        let c = x[0];
        lemma_str_body_round(x.drop_first(), rest);
        if c == '"' || c == '\\' {
            assert(s[0] == '\\');
            assert(s[1] == c);
            assert(s.skip(2) =~= escaped(x.drop_first()) + seq!['"'] + rest);
            assert(seq![c] + x.drop_first() =~= x);
        } else {
            assert(s[0] == c);
            assert(s.skip(1) =~= escaped(x.drop_first()) + seq!['"'] + rest);
            assert(seq![c] + x.drop_first() =~= x);
        }
    }
}

/// A rendered JSON string and tail parse back to the text and tail.
proof fn lemma_jstr_round(x: Seq<char>, rest: Seq<char>)
    ensures
        parse_jstr(jstr_of(x) + rest) == Some((x, rest)),
{
    let s = jstr_of(x) + rest;
    assert(s[0] == '"');
    assert(s.skip(1) =~= escaped(x) + seq!['"'] + rest);
    lemma_str_body_round(x, rest);
}

/// The digit run of digits followed by a non-digit is exactly the digits.
proof fn lemma_dpl_all_digits(ds: Seq<char>, rest: Seq<char>)
    requires
        all_digits(ds),
        rest.len() > 0,
        !is_digit(rest[0]),
    ensures
        digit_prefix_len(ds + rest) == ds.len(),
    decreases ds.len(),
{
    if ds.len() == 0 {
        assert(ds + rest =~= rest);
    } else {
        assert((ds + rest)[0] == ds[0]);
        assert((ds + rest).skip(1) =~= ds.drop_first() + rest);
        lemma_dpl_all_digits(ds.drop_first(), rest);
    }
}

/// A rendered port number followed by a non-digit parses back to the port.
proof fn lemma_port_round(n: u16, rest: Seq<char>)
    requires
        rest.len() > 0,
        !is_digit(rest[0]),
    ensures
        parse_port(dec_of(n as int) + rest) == Some((n, rest)),
{
    let ds = dec_of(n as int);
    lemma_dec_of_val(n as int);
    lemma_dpl_all_digits(ds, rest);
    assert((ds + rest).take(ds.len() as int) =~= ds);
    assert((ds + rest).skip(ds.len() as int) =~= rest);
}

/// A rendered welcome value and tail parse back to the value and tail.
proof fn lemma_welcome_round(w: Option<Seq<char>>, rest: Seq<char>)
    ensures
        parse_jwelcome(jwelcome_of(w) + rest) == Some((w, rest)),
{
    reveal_strlit("null");
    match w {
        None => {
            lemma_parse_lit_round(tok_null(), rest);
        },
        Some(x) => {
            let s = jstr_of(x) + rest;
            assert(s[0] == '"');
            if parse_lit(s, tok_null()) is Some {
                assert(s.take(4)[0] == s[0]);
                assert(tok_null()[0] == 'n');
                assert(false);
            }
            lemma_jstr_round(x, rest);
        },
    }
}

/// A rendered profile object and tail parse back to the profile and tail.
#[verifier::rlimit(100)]
#[verifier::spinoff_prover]
proof fn lemma_profile_round(p: ProfileV, rest: Seq<char>)
    requires
        rest.len() > 0,
        !is_digit(rest[0]),
    ensures
        parse_profile(render_profile_of(p) + rest) == Some((p, rest)),
{
    let t11 = rest;
    let t10 = tok_item_end() + t11;
    let t9 = jwelcome_of(p.welcome_message) + t10;
    let t8 = tok_welcome() + t9;
    let t7 = jstr_of(p.username) + t8;
    let t6 = tok_user() + t7;
    let t5 = dec_of(p.port as int) + t6;
    let t4 = tok_port() + t5;
    let t3 = jstr_of(p.host) + t4;
    let t2 = tok_host() + t3;
    let t1 = jstr_of(p.name) + t2;
    let s = tok_name() + t1;
    assert(render_profile_of(p) + rest =~= s);
    lemma_parse_lit_round(tok_name(), t1);
    lemma_jstr_round(p.name, t2);
    assert(t1 =~= jstr_of(p.name) + t2);
    lemma_parse_lit_round(tok_host(), t3);
    lemma_jstr_round(p.host, t4);
    lemma_parse_lit_round(tok_port(), t5);
    reveal_strlit(",\n    \"username\": ");
    assert(t6[0] == ',');
    assert(!is_digit(','));
    lemma_port_round(p.port, t6);
    lemma_parse_lit_round(tok_user(), t7);
    lemma_jstr_round(p.username, t8);
    lemma_parse_lit_round(tok_welcome(), t9);
    lemma_welcome_round(p.welcome_message, t10);
    lemma_parse_lit_round(tok_item_end(), t11);
    assert(parse_profile(s) == Some((p, rest)));
}

/// Rendered items followed by the array close parse back to the items.
proof fn lemma_items_round(ps: Seq<ProfileV>, rest: Seq<char>)
    requires
        ps.len() >= 1,
        rest.len() > 0,
        rest[0] == '\n',
    ensures
        parse_items(render_items_of(ps) + rest) == Some((ps, rest)),
    decreases ps.len(),
{
    reveal_strlit(",\n");
    assert(tok_sep()[0] == ',');
    if ps.len() == 1 {
        lemma_profile_round(ps[0], rest);
        if parse_lit(rest, tok_sep()) is Some {
            assert(rest.take(2)[0] == rest[0]);
            assert(false);
        }
        assert(seq![ps[0]] =~= ps);
    } else {
        let tail = tok_sep() + render_items_of(ps.drop_first()) + rest;
        assert(render_items_of(ps) + rest =~= render_profile_of(ps[0]) + tail);
        assert(tail[0] == ',');
        assert(!is_digit(','));
        lemma_profile_round(ps[0], tail);
        assert(tail =~= tok_sep() + (render_items_of(ps.drop_first()) + rest));
        lemma_parse_lit_round(tok_sep(), render_items_of(ps.drop_first()) + rest);
        lemma_items_round(ps.drop_first(), rest);
        assert(seq![ps[0]] + ps.drop_first() =~= ps);
    }
}

/// Reading back a rendered collection gives the collection, field for
/// field and in order.
pub proof fn lemma_store_round_trip(ps: Seq<ProfileV>)
    ensures
        parse_store_spec(render_store_of(ps)) == Some(ps),
{
    reveal_strlit("[]");
    reveal_strlit("[\n");
    reveal_strlit("\n]");
    if ps.len() == 0 {
    } else {
        let s = render_store_of(ps);
        assert(s =~= tok_open() + (render_items_of(ps) + tok_close()));
        assert(s.len() >= 4) by {
            assert(tok_close().len() == 2);
            assert(tok_open().len() == 2);
        }
        assert(s != tok_empty()) by {
            assert(tok_empty().len() == 2);
        }
        lemma_parse_lit_round(tok_open(), render_items_of(ps) + tok_close());
        assert(tok_close()[0] == '\n');
        lemma_items_round(ps, tok_close());
    }
}

/// A storage document that is not well-formed; reading it is fatal.
#[derive(Debug)]
pub struct MalformedStore;

/// Consumes an expected literal at a position.
fn e_lit(v: &Vec<char>, i: usize, lit: &str) -> (r: Option<usize>)
    requires
        i <= v@.len(),
    ensures
        match r {
            Some(j) => {
                &&& i <= j <= v@.len()
                &&& j - i == lit@.len()
                &&& parse_lit(v@.skip(i as int), lit@) == Some(v@.skip(j as int))
            },
            None => parse_lit(v@.skip(i as int), lit@) is None,
        },
{
    let m = lit.unicode_len();
    if v.len() - i < m {
        return None;
    }
    let end: usize = i + m;
    let mut k: usize = i;
    while k < end
        invariant
            m == lit@.len(),
            end == i + m,
            i <= k <= end <= v@.len(),
            forall|t: int| 0 <= t < k - i ==> v@[i + t] == lit@[t],
        decreases end - k,
    {
        if v[k] != lit.get_char(k - i) {
            proof {
                assert(v@.skip(i as int)[k - i] == v@[k as int]);
                if v@.skip(i as int).take(m as int) == lit@ {
                    assert(v@.skip(i as int).take(m as int)[k - i] == lit@[k - i]);
                    assert(false);
                }
            }
            return None;
        }
        k += 1;
    }
    proof {
        assert(v@.skip(i as int).take(m as int) =~= lit@);
        assert(v@.skip(i as int).skip(m as int) =~= v@.skip(i + m));
    }
    Some(i + m)
}

/// Consumes a quoted string's body, undoing the escapes.
fn e_str_body(v: &Vec<char>, i: usize) -> (r: Option<(String, usize)>)
    requires
        i <= v@.len(),
    ensures
        match r {
            Some(p) => {
                &&& i < p.1 <= v@.len()
                &&& parse_str_body(v@.skip(i as int)) == Some((p.0@, v@.skip(p.1 as int)))
            },
            None => parse_str_body(v@.skip(i as int)) is None,
        },
    decreases v@.len() - i,
{
    let ghost s = v@.skip(i as int);
    if i == v.len() {
        return None;
    }
    proof {
        assert(s[0] == v@[i as int]);
        assert(s.skip(1) =~= v@.skip(i + 1));
    }
    let c = v[i];
    if c == '"' {
        Some((String::new(), i + 1))
    } else if c == '\\' {
        if i + 1 < v.len() && (v[i + 1] == '"' || v[i + 1] == '\\') {
            proof {
                assert(s[1] == v@[i + 1]);
                assert(s.skip(2) =~= v@.skip(i + 2));
            }
            match e_str_body(v, i + 2) {
                None => None,
                Some((x, j)) => {
                    let mut out = String::new();
                    push_char(&mut out, v[i + 1]);
                    out.append(x.as_str());
                    proof {
                        assert(out@ =~= seq![s[1]] + x@);
                    }
                    Some((out, j))
                },
            }
        } else {
            None
        }
    } else {
        proof {
            assert(s.skip(1) =~= v@.skip(i + 1));
        }
        match e_str_body(v, i + 1) {
            None => None,
            Some((x, j)) => {
                let mut out = String::new();
                push_char(&mut out, c);
                out.append(x.as_str());
                proof {
                    assert(out@ =~= seq![s[0]] + x@);
                }
                Some((out, j))
            },
        }
    }
}

/// Consumes a JSON string at a position.
fn e_jstr(v: &Vec<char>, i: usize) -> (r: Option<(String, usize)>)
    requires
        i <= v@.len(),
    ensures
        match r {
            Some(p) => {
                &&& i < p.1 <= v@.len()
                &&& parse_jstr(v@.skip(i as int)) == Some((p.0@, v@.skip(p.1 as int)))
            },
            None => parse_jstr(v@.skip(i as int)) is None,
        },
{
    if i < v.len() && v[i] == '"' {
        proof {
            assert(v@.skip(i as int)[0] == v@[i as int]);
            assert(v@.skip(i as int).skip(1) =~= v@.skip(i + 1));
        }
        e_str_body(v, i + 1)
    } else {
        None
    }
}

/// The digit run is exactly the digits up to the first non-digit.
proof fn lemma_dpl_char(s: Seq<char>, m: int)
    requires
        0 <= m <= s.len(),
        forall|t: int| 0 <= t < m ==> is_digit(s[t]),
        m < s.len() ==> !is_digit(s[m]),
    ensures
        digit_prefix_len(s) == m,
    decreases m,
{
    if m == 0 {
    } else {
        assert(is_digit(s[0]));
        lemma_dpl_char(s.skip(1), m - 1);
    }
}

/// Consumes a port number at a position.
fn e_port(v: &Vec<char>, i: usize) -> (r: Option<(u16, usize)>)
    requires
        i <= v@.len(),
    ensures
        match r {
            Some(p) => {
                &&& i < p.1 <= v@.len()
                &&& parse_port(v@.skip(i as int)) == Some((p.0, v@.skip(p.1 as int)))
            },
            None => parse_port(v@.skip(i as int)) is None,
        },
{
    let ghost s = v@.skip(i as int);
    let mut k: usize = i;
    while k < v.len() && v[k] >= '0' && v[k] <= '9'
        invariant
            i <= k <= v@.len(),
            s == v@.skip(i as int),
            forall|t: int| 0 <= t < k - i ==> is_digit(s[t]),
        decreases v@.len() - k,
    {
        proof {
            assert(s[k - i] == v@[k as int]);
        }
        k += 1;
    }
    proof {
        if k < v@.len() {
            assert(s[k - i] == v@[k as int]);
        }
        lemma_dpl_char(s, k - i);
    }
    if k == i {
        return None;
    }
    let mut acc: u32 = 0;
    let mut j: usize = i;
    while j < k
        invariant
            i <= j <= k <= v@.len(),
            s == v@.skip(i as int),
            digit_prefix_len(s) == k - i,
            forall|t: int| 0 <= t < k - i ==> is_digit(s[t]),
            acc <= 65535,
            acc == val_of(s.take(j - i)),
        decreases k - j,
    {
        let c = v[j];
        proof {
            assert(s[j - i] == v@[j as int]);
            assert(is_digit(s[j - i]));
            assert(s.take(j - i + 1).drop_last() =~= s.take(j - i));
            assert(s.take(j - i + 1).last() == s[j - i]);
        }
        let d: u32 = (c as u32) - ('0' as u32);
        let next: u32 = acc * 10 + d;
        if next > 65535 {
            proof {
                assert(val_of(s.take(j - i + 1)) == acc * 10 + d);
                crate::numbers::lemma_val_of_take_monotone(s.take(k - i), j - i + 1);
                assert(s.take(k - i).take(j - i + 1) =~= s.take(j - i + 1));
                assert(val_of(s.take(k - i)) > 65535);
            }
            return None;
        }
        acc = next;
        j += 1;
    }
    proof {
        assert(s.skip(k - i) =~= v@.skip(k as int));
    }
    Some((acc as u16, k))
}

/// Consumes a welcome value at a position.
fn e_welcome(v: &Vec<char>, i: usize) -> (r: Option<(Option<String>, usize)>)
    requires
        i <= v@.len(),
    ensures
        match r {
            Some(p) => {
                &&& i < p.1 <= v@.len()
                &&& parse_jwelcome(v@.skip(i as int)) == Some(
                    (
                        match p.0 {
                            Some(ref w) => Some(w@),
                            None => None,
                        },
                        v@.skip(p.1 as int),
                    ),
                )
            },
            None => parse_jwelcome(v@.skip(i as int)) is None,
        },
{
    match e_lit(v, i, "null") {
        Some(j) => {
            proof {
                reveal_strlit("null");
            }
            Some((None, j))
        },
        None => {
            match e_jstr(v, i) {
                Some((x, j)) => Some((Some(x), j)),
                None => None,
            }
        },
    }
}

/// Consumes one profile object at a position.
fn e_profile(v: &Vec<char>, i: usize) -> (r: Option<(Profile, usize)>)
    requires
        i <= v@.len(),
    ensures
        match r {
            Some(p) => {
                &&& i < p.1 <= v@.len()
                &&& parse_profile(v@.skip(i as int)) == Some((p.0@, v@.skip(p.1 as int)))
            },
            None => parse_profile(v@.skip(i as int)) is None,
        },
{
    let j1 = match e_lit(v, i, "  {\n    \"name\": ") {
        None => {
            return None;
        },
        Some(j) => j,
    };
    let (name, j2) = match e_jstr(v, j1) {
        None => {
            return None;
        },
        Some(p) => p,
    };
    let j3 = match e_lit(v, j2, ",\n    \"host\": ") {
        None => {
            return None;
        },
        Some(j) => j,
    };
    let (host, j4) = match e_jstr(v, j3) {
        None => {
            return None;
        },
        Some(p) => p,
    };
    let j5 = match e_lit(v, j4, ",\n    \"port\": ") {
        None => {
            return None;
        },
        Some(j) => j,
    };
    let (port, j6) = match e_port(v, j5) {
        None => {
            return None;
        },
        Some(p) => p,
    };
    let j7 = match e_lit(v, j6, ",\n    \"username\": ") {
        None => {
            return None;
        },
        Some(j) => j,
    };
    let (username, j8) = match e_jstr(v, j7) {
        None => {
            return None;
        },
        Some(p) => p,
    };
    let j9 = match e_lit(v, j8, ",\n    \"welcome_message\": ") {
        None => {
            return None;
        },
        Some(j) => j,
    };
    let (welcome, j10) = match e_welcome(v, j9) {
        None => {
            return None;
        },
        Some(p) => p,
    };
    let j11 = match e_lit(v, j10, "\n  }") {
        None => {
            return None;
        },
        Some(j) => j,
    };
    Some(
        (
            Profile { name, host, port, username, welcome_message: welcome },
            j11,
        ),
    )
}

/// Consumes the comma-separated profile objects at a position.
fn e_items(v: &Vec<char>, i: usize) -> (r: Option<(Vec<Profile>, usize)>)
    requires
        i <= v@.len(),
    ensures
        match r {
            Some(p) => {
                &&& i < p.1 <= v@.len()
                &&& parse_items(v@.skip(i as int)) == Some((views(p.0@), v@.skip(p.1 as int)))
            },
            None => parse_items(v@.skip(i as int)) is None,
        },
    decreases v@.len() - i,
{
    match e_profile(v, i) {
        None => None,
        Some((p, j)) => {
            match e_lit(v, j, ",\n") {
                None => {
                    let mut out: Vec<Profile> = Vec::new();
                    let ghost pv = p@;
                    out.push(p);
                    proof {
                        assert(views(out@) =~= seq![pv]);
                    }
                    Some((out, j))
                },
                Some(j2) => {
                    proof {
                        reveal_strlit(",\n");
                    }
                    match e_items(v, j2) {
                        None => None,
                        Some((ps, j3)) => {
                            let mut out: Vec<Profile> = Vec::new();
                            let ghost pv = p@;
                            let ghost psv = ps@;
                            out.push(p);
                            let mut rest_vec = ps;
                            out.append(&mut rest_vec);
                            proof {
                                assert(views(out@) =~= seq![pv] + views(psv));
                            }
                            Some((out, j3))
                        },
                    }
                },
            }
        },
    }
}

/// Reads the storage document back into the collection. An absent file is
/// an empty collection; a present document that is not well-formed is an
/// error the caller treats as fatal.
pub fn load_connections(contents: Option<&str>) -> (r: Result<Vec<Profile>, MalformedStore>)
    ensures
        match contents {
            None => r matches Ok(c) && views(c@) == Seq::<ProfileV>::empty(),
            Some(text) => match parse_store_spec(text@) {
                Some(ps) => r matches Ok(c) && views(c@) == ps,
                None => r is Err,
            },
        },
{
    let text = match contents {
        None => {
            let out: Vec<Profile> = Vec::new();
            proof {
                assert(views(out@) =~= Seq::<ProfileV>::empty());
            }
            return Ok(out);
        },
        Some(t) => t,
    };
    if crate::strings::str_eq(text, "[]") {
        let out: Vec<Profile> = Vec::new();
        proof {
            assert(views(out@) =~= Seq::<ProfileV>::empty());
        }
        return Ok(out);
    }
    let v = str_to_chars(text);
    proof {
        assert(v@.skip(0) =~= text@);
    }
    let j = match e_lit(&v, 0, "[\n") {
        None => {
            return Err(MalformedStore);
        },
        Some(j) => j,
    };
    let (ps, j2) = match e_items(&v, j) {
        None => {
            return Err(MalformedStore);
        },
        Some(p) => p,
    };
    let ghost rest = v@.skip(j2 as int);
    let j3 = match e_lit(&v, j2, "\n]") {
        None => {
            proof {
                if rest == tok_close() {
                    reveal_strlit("\n]");
                    assert(rest.take(2) =~= tok_close());
                    assert(false);
                }
            }
            return Err(MalformedStore);
        },
        Some(j) => j,
    };
    if j3 == v.len() {
        proof {
            reveal_strlit("\n]");
            assert(rest =~= tok_close());
        }
        Ok(ps)
    } else {
        proof {
            reveal_strlit("\n]");
            assert(rest.len() > 2);
            assert(rest != tok_close());
        }
        Err(MalformedStore)
    }
}

} // verus!
