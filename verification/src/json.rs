//! The state file's format: a flat JSON object with exactly the three
//! preference fields, for example
//! `{"channel":"poly_fr","always_on_top":false,"transparent":false}`.
//!
//! [`to_json`] produces the canonical text of a record, described by
//! [`canonical_json`]. [`from_json`] accepts the format with arbitrary
//! whitespace between tokens and the three members in any order, each exactly
//! once; anything else is malformed. String escapes are the short JSON ones
//! (`\"`, `\\`, `\/`, `\b`, `\f`, `\n`, `\r`, `\t`).

use vstd::prelude::*;

use crate::prefs::{Preferences, PrefsView};

verus! {

// ---------------------------------------------------------------------------
// The canonical text of a record
// ---------------------------------------------------------------------------

/// The two-character escape for the characters that [`escape_string`] does not
/// keep literally.
pub open spec fn escape_char(c: char) -> Seq<char> {
    if c == '"' {
        seq!['\\', '"']
    } else if c == '\\' {
        seq!['\\', '\\']
    } else if c == '\n' {
        seq!['\\', 'n']
    } else if c == '\r' {
        seq!['\\', 'r']
    } else if c == '\t' {
        seq!['\\', 't']
    } else {
        seq![c]
    }
}

/// The body of a JSON string literal holding the characters of `s`.
pub open spec fn escape_string(s: Seq<char>) -> Seq<char>
    decreases s.len(),
{
    if s.len() == 0 {
        Seq::empty()
    } else {
        escape_char(s[0]) + escape_string(s.drop_first())
    }
}

/// The text of a JSON boolean.
pub open spec fn bool_text(b: bool) -> Seq<char> {
    if b {
        "true"@
    } else {
        "false"@
    }
}

/// The exact text that saving a record writes: one flat object, the three
/// members in fixed order, no whitespace.
pub open spec fn canonical_json(p: PrefsView) -> Seq<char> {
    "{\"channel\":\""@ + escape_string(p.channel) + "\",\"always_on_top\":"@ + bool_text(
        p.always_on_top,
    ) + ",\"transparent\":"@ + bool_text(p.transparent) + "}"@
}

// ---------------------------------------------------------------------------
// Serialization
// ---------------------------------------------------------------------------

/// Relies on `String::push`: appends the given character at the end of the
/// string.
#[verifier::external_body]
fn push_char(s: &mut String, c: char)
    ensures
        final(s)@ == old(s)@.push(c),
{
    s.push(c);
}

/// `escape_string` distributes over concatenation.
proof fn lemma_escape_append(a: Seq<char>, b: Seq<char>)
    ensures
        escape_string(a + b) == escape_string(a) + escape_string(b),
    decreases a.len(),
{
    if a.len() == 0 {
        assert(a + b =~= b);
        assert(escape_string(a) + escape_string(b) =~= escape_string(b));
    } else {
        assert((a + b).drop_first() =~= a.drop_first() + b);
        lemma_escape_append(a.drop_first(), b);
        assert(escape_char(a[0]) + (escape_string(a.drop_first()) + escape_string(b)) =~= (
        escape_char(a[0]) + escape_string(a.drop_first())) + escape_string(b));
    }
}

/// Escaping one more character extends the escaped prefix by its escape.
proof fn lemma_escape_take_step(s: Seq<char>, i: int)
    requires
        0 <= i < s.len(),
    ensures
        escape_string(s.take(i + 1)) == escape_string(s.take(i)) + escape_char(s[i]),
{
    assert(s.take(i + 1) =~= s.take(i) + seq![s[i]]);
    lemma_escape_append(s.take(i), seq![s[i]]);
    assert(seq![s[i]].len() == 1);
    assert(seq![s[i]][0] == s[i]);
    assert(seq![s[i]].drop_first() =~= Seq::<char>::empty());
    assert(escape_string(seq![s[i]]) == escape_char(s[i]) + escape_string(Seq::<char>::empty()));
    assert(escape_char(s[i]) + Seq::<char>::empty() =~= escape_char(s[i]));
}

/// Appends the escaped body of a JSON string literal holding `s`.
fn append_escaped(out: &mut String, s: &String)
    ensures
        final(out)@ == old(out)@ + escape_string(s@),
{
    let ghost out0 = out@;
    let n = s.as_str().unicode_len();
    let mut i: usize = 0;
    while i < n
        invariant
            n == s@.len(),
            0 <= i <= n,
            out@ == out0 + escape_string(s@.take(i as int)),
        decreases n - i,
    {
        let c = s.as_str().get_char(i);
        if c == '"' {
            push_char(out, '\\');
            push_char(out, '"');
        } else if c == '\\' {
            push_char(out, '\\');
            push_char(out, '\\');
        } else if c == '\n' {
            push_char(out, '\\');
            push_char(out, 'n');
        } else if c == '\r' {
            push_char(out, '\\');
            push_char(out, 'r');
        } else if c == '\t' {
            push_char(out, '\\');
            push_char(out, 't');
        } else {
            push_char(out, c);
        }
        proof {
            lemma_escape_take_step(s@, i as int);
            assert(out@ =~= out0 + escape_string(s@.take(i + 1)));
        }
        i = i + 1;
    }
    proof {
        assert(s@.take(n as int) =~= s@);
    }
}

// ---------------------------------------------------------------------------
// The accepted grammar
// ---------------------------------------------------------------------------

/// JSON insignificant whitespace.
pub open spec fn is_json_ws(c: char) -> bool {
    c == ' ' || c == '\t' || c == '\n' || c == '\r'
}

/// Drops insignificant whitespace from the front.
pub open spec fn skip_ws(s: Seq<char>) -> Seq<char>
    decreases s.len(),
{
    if s.len() > 0 && is_json_ws(s[0]) {
        skip_ws(s.drop_first())
    } else {
        s
    }
}

/// The character denoted by a short escape, if the letter is one.
pub open spec fn unescape_char(c: char) -> Option<char> {
    if c == '"' {
        Some('"')
    } else if c == '\\' {
        Some('\\')
    } else if c == '/' {
        Some('/')
    } else if c == 'b' {
        Some('\u{8}')
    } else if c == 'f' {
        Some('\u{c}')
    } else if c == 'n' {
        Some('\n')
    } else if c == 'r' {
        Some('\r')
    } else if c == 't' {
        Some('\t')
    } else {
        None
    }
}

/// Parses the remainder of a JSON string literal, after its opening quote:
/// the denoted characters and the text after the closing quote.
pub open spec fn parse_string_body(s: Seq<char>) -> Option<(Seq<char>, Seq<char>)>
    decreases s.len(),
{
    if s.len() == 0 {
        None
    } else if s[0] == '"' {
        Some((Seq::empty(), s.drop_first()))
    } else if s[0] == '\\' {
        if s.len() < 2 {
            None
        } else {
            match unescape_char(s[1]) {
                Option::None => None,
                Option::Some(c) => match parse_string_body(s.skip(2)) {
                    Option::None => None,
                    Option::Some(br) => Some((seq![c] + br.0, br.1)),
                },
            }
        }
    } else {
        match parse_string_body(s.drop_first()) {
            Option::None => None,
            Option::Some(br) => Some((seq![s[0]] + br.0, br.1)),
        }
    }
}

/// Parses a JSON boolean literal.
pub open spec fn parse_bool(s: Seq<char>) -> Option<(bool, Seq<char>)> {
    if s.len() >= 4 && s[0] == 't' && s[1] == 'r' && s[2] == 'u' && s[3] == 'e' {
        Some((true, s.skip(4)))
    } else if s.len() >= 5 && s[0] == 'f' && s[1] == 'a' && s[2] == 'l' && s[3] == 's' && s[4]
        == 'e' {
        Some((false, s.skip(5)))
    } else {
        None
    }
}

/// The fields seen so far while the members of the object are parsed.
#[verifier::ext_equal]
pub ghost struct PartialPrefs {
    pub channel: Option<Seq<char>>,
    pub always_on_top: Option<bool>,
    pub transparent: Option<bool>,
}

/// The accumulator before any member was parsed.
pub open spec fn empty_partial() -> PartialPrefs {
    PartialPrefs { channel: None, always_on_top: None, transparent: None }
}

/// Parses one `"key": value` member starting at `s` and records its value; a
/// key that is not one of the three, a repeated key, or a value of the wrong
/// shape is malformed.
pub open spec fn parse_member(s: Seq<char>, acc: PartialPrefs) -> Option<(PartialPrefs, Seq<char>)> {
    if s.len() == 0 || s[0] != '"' {
        None
    } else {
        match parse_string_body(s.drop_first()) {
            Option::None => None,
            Option::Some(kr) => {
                let r2 = skip_ws(kr.1);
                if r2.len() == 0 || r2[0] != ':' {
                    None
                } else {
                    let r3 = skip_ws(r2.drop_first());
                    if kr.0 == "channel"@ {
                        if acc.channel is Some {
                            None
                        } else if r3.len() == 0 || r3[0] != '"' {
                            None
                        } else {
                            match parse_string_body(r3.drop_first()) {
                                Option::None => None,
                                Option::Some(vr) => Some(
                                    (
                                        PartialPrefs {
                                            channel: Some(vr.0),
                                            always_on_top: acc.always_on_top,
                                            transparent: acc.transparent,
                                        },
                                        vr.1,
                                    ),
                                ),
                            }
                        }
                    } else if kr.0 == "always_on_top"@ {
                        if acc.always_on_top is Some {
                            None
                        } else {
                            match parse_bool(r3) {
                                Option::None => None,
                                Option::Some(br) => Some(
                                    (
                                        PartialPrefs {
                                            channel: acc.channel,
                                            always_on_top: Some(br.0),
                                            transparent: acc.transparent,
                                        },
                                        br.1,
                                    ),
                                ),
                            }
                        }
                    } else if kr.0 == "transparent"@ {
                        if acc.transparent is Some {
                            None
                        } else {
                            match parse_bool(r3) {
                                Option::None => None,
                                Option::Some(br) => Some(
                                    (
                                        PartialPrefs {
                                            channel: acc.channel,
                                            always_on_top: acc.always_on_top,
                                            transparent: Some(br.0),
                                        },
                                        br.1,
                                    ),
                                ),
                            }
                        }
                    } else {
                        None
                    }
                }
            },
        }
    }
}

/// Parses the three members of the object, separated by commas: member,
/// whitespace, comma, whitespace, member, and again.
pub open spec fn parse_members3(s: Seq<char>, acc: PartialPrefs) -> Option<(PartialPrefs, Seq<char>)> {
    match parse_member(s, acc) {
        Option::None => None,
        Option::Some(m1) => {
            let r1 = skip_ws(m1.1);
            if r1.len() == 0 || r1[0] != ',' {
                None
            } else {
                match parse_member(skip_ws(r1.drop_first()), m1.0) {
                    Option::None => None,
                    Option::Some(m2) => {
                        let r2 = skip_ws(m2.1);
                        if r2.len() == 0 || r2[0] != ',' {
                            None
                        } else {
                            parse_member(skip_ws(r2.drop_first()), m2.0)
                        }
                    },
                }
            }
        },
    }
}

/// The record a state-file text denotes, if it is well formed: one object
/// with the three members, each exactly once, in any order, with arbitrary
/// whitespace between tokens.
pub open spec fn parse_prefs(s: Seq<char>) -> Option<PrefsView> {
    let s1 = skip_ws(s);
    if s1.len() == 0 || s1[0] != '{' {
        None
    } else {
        match parse_members3(skip_ws(s1.drop_first()), empty_partial()) {
            Option::None => None,
            Option::Some(m3) => {
                let r3 = skip_ws(m3.1);
                if r3.len() == 0 || r3[0] != '}' {
                    None
                } else if skip_ws(r3.drop_first()).len() != 0 {
                    None
                } else {
                    match (m3.0.channel, m3.0.always_on_top, m3.0.transparent) {
                        (Some(c), Some(a), Some(t)) => Some(
                            (PrefsView { channel: c, always_on_top: a, transparent: t }),
                        ),
                        _ => None,
                    }
                }
            },
        }
    }
}

/// Serializes a record as the canonical state-file text.
pub fn to_json(p: &Preferences) -> (r: String)
    ensures
        r@ == canonical_json(p@),
{
    let mut out = String::new();
    out.append("{\"channel\":\"");
    append_escaped(&mut out, &p.channel);
    out.append("\",\"always_on_top\":");
    out.append(if p.always_on_top { "true" } else { "false" });
    out.append(",\"transparent\":");
    out.append(if p.transparent { "true" } else { "false" });
    out.append("}");
    out
}

// ---------------------------------------------------------------------------
// Parsing
// ---------------------------------------------------------------------------

/// A state-file text that does not match the accepted grammar.
#[derive(Clone, Copy, PartialEq, Eq, Structural, Debug)]
pub enum ParseError {
    Malformed,
}

impl ParseError {
    /// The human-readable error surfaced to the frontend.
    pub fn message(&self) -> (r: String)
        ensures
            r@ == "invalid preferences JSON in state file"@,
    {
        "invalid preferences JSON in state file".to_owned()
    }
}

/// Facts about one step into a suffix of `s`.
proof fn lemma_suffix_step(s: Seq<char>, i: int)
    requires
        0 <= i < s.len(),
    ensures
        s.skip(i).len() == s.len() - i,
        s.skip(i)[0] == s[i],
        s.skip(i).drop_first() == s.skip(i + 1),
{
    assert(s.skip(i).drop_first() =~= s.skip(i + 1));
}

/// The characters of a string, in order.
fn char_seq(s: &str) -> (v: Vec<char>)
    ensures
        v@ == s@,
{
    let n = s.unicode_len();
    let mut v: Vec<char> = Vec::new();
    let mut i: usize = 0;
    while i < n
        invariant
            n == s@.len(),
            0 <= i <= n,
            v@ == s@.take(i as int),
        decreases n - i,
    {
        v.push(s.get_char(i));
        proof {
            assert(s@.take(i as int).push(s@[i as int]) =~= s@.take(i + 1));
        }
        i = i + 1;
    }
    proof {
        assert(s@.take(n as int) =~= s@);
    }
    v
}

/// A string holding the given characters, in order.
fn chars_to_string(v: &Vec<char>) -> (s: String)
    ensures
        s@ == v@,
{
    let mut s = String::new();
    let mut i: usize = 0;
    while i < v.len()
        invariant
            0 <= i <= v@.len(),
            s@ == v@.take(i as int),
        decreases v@.len() - i,
    {
        push_char(&mut s, v[i]);
        proof {
            assert(v@.take(i as int).push(v@[i as int]) =~= v@.take(i + 1));
        }
        i = i + 1;
    }
    proof {
        assert(v@.take(v@.len() as int) =~= v@);
    }
    s
}

/// Whether the character is JSON whitespace.
fn is_ws_char(c: char) -> (r: bool)
    ensures
        r == is_json_ws(c),
{
    c == ' ' || c == '\t' || c == '\n' || c == '\r'
}

/// The character denoted by a short escape, if the letter is one.
fn unescape(c: char) -> (r: Option<char>)
    ensures
        r == unescape_char(c),
{
    if c == '"' {
        Some('"')
    } else if c == '\\' {
        Some('\\')
    } else if c == '/' {
        Some('/')
    } else if c == 'b' {
        Some('\u{8}')
    } else if c == 'f' {
        Some('\u{c}')
    } else if c == 'n' {
        Some('\n')
    } else if c == 'r' {
        Some('\r')
    } else if c == 't' {
        Some('\t')
    } else {
        None
    }
}

/// The position after the whitespace that starts at `start`.
fn skip_ws_at(v: &Vec<char>, start: usize) -> (r: usize)
    requires
        start <= v@.len(),
    ensures
        start <= r <= v@.len(),
        skip_ws(v@.skip(start as int)) == v@.skip(r as int),
{
    let mut i = start;
    while i < v.len() && is_ws_char(v[i])
        invariant
            start <= i <= v@.len(),
            skip_ws(v@.skip(start as int)) == skip_ws(v@.skip(i as int)),
        decreases v@.len() - i,
    {
        proof {
            lemma_suffix_step(v@, i as int);
        }
        i = i + 1;
    }
    proof {
        if i < v@.len() {
            lemma_suffix_step(v@, i as int);
        }
        assert(skip_ws(v@.skip(i as int)) == v@.skip(i as int));
    }
    i
}

/// What the exec string-literal parser has established so far: the parse of
/// the whole literal equals the parse of the remaining text, with the
/// already-collected characters in front.
spec fn string_body_cont(s: Seq<char>, acc: Seq<char>) -> Option<(Seq<char>, Seq<char>)> {
    match parse_string_body(s) {
        Option::None => None,
        Option::Some(br) => Some((acc + br.0, br.1)),
    }
}

/// Parses a JSON string literal's body, `start` standing right after the
/// opening quote; returns the denoted characters and the position after the
/// closing quote.
fn parse_string_at(v: &Vec<char>, start: usize) -> (res: Option<(Vec<char>, usize)>)
    requires
        start <= v@.len(),
    ensures
        match res {
            Option::Some(be) => {
                &&& start <= be.1 <= v@.len()
                &&& parse_string_body(v@.skip(start as int)) == Some(
                    (be.0@, v@.skip(be.1 as int)),
                )
            },
            Option::None => parse_string_body(v@.skip(start as int)) is None,
        },
{
    let mut pos = start;
    let mut acc: Vec<char> = Vec::new();
    proof {
        let pb = parse_string_body(v@.skip(start as int));
        if pb is Some {
            assert(Seq::<char>::empty() + pb.unwrap().0 =~= pb.unwrap().0);
        }
    }
    loop
        invariant
            start <= pos <= v@.len(),
            parse_string_body(v@.skip(start as int)) == string_body_cont(
                v@.skip(pos as int),
                acc@,
            ),
        decreases v@.len() - pos,
    {
        if pos == v.len() {
            return None;
        }
        let c = v[pos];
        proof {
            lemma_suffix_step(v@, pos as int);
        }
        if c == '"' {
            proof {
                assert(acc@ + Seq::<char>::empty() =~= acc@);
            }
            return Some((acc, pos + 1));
        }
        if c == '\\' {
            if pos + 1 == v.len() {
                return None;
            }
            let e = v[pos + 1];
            proof {
                assert(v@.skip(pos as int)[1] == v@[pos + 1]);
                assert(v@.skip(pos as int).skip(2) =~= v@.skip(pos + 2));
            }
            match unescape(e) {
                Option::None => {
                    return None;
                },
                Option::Some(u) => {
                    let ghost acc0 = acc@;
                    acc.push(u);
                    proof {
                        assert(acc@ =~= acc0 + seq![u]);
                        let pb = parse_string_body(v@.skip(pos + 2));
                        if pb is Some {
                            assert(acc0 + (seq![u] + pb.unwrap().0) =~= (acc0 + seq![u])
                                + pb.unwrap().0);
                        }
                    }
                    pos = pos + 2;
                },
            }
        } else {
            let ghost acc0 = acc@;
            acc.push(c);
            proof {
                assert(acc@ =~= acc0 + seq![c]);
                let pb = parse_string_body(v@.skip(pos + 1));
                if pb is Some {
                    assert(acc0 + (seq![c] + pb.unwrap().0) =~= (acc0 + seq![c]) + pb.unwrap().0);
                }
            }
            pos = pos + 1;
        }
    }
}

/// Parses a JSON boolean literal at `start`.
fn parse_bool_at(v: &Vec<char>, start: usize) -> (res: Option<(bool, usize)>)
    requires
        start <= v@.len(),
    ensures
        match res {
            Option::Some(be) => {
                &&& start <= be.1 <= v@.len()
                &&& parse_bool(v@.skip(start as int)) == Some((be.0, v@.skip(be.1 as int)))
            },
            Option::None => parse_bool(v@.skip(start as int)) is None,
        },
{
    proof {
        let s = v@.skip(start as int);
        assert forall|i: int| 0 <= i < s.len() implies s[i] == v@[start + i] by {}
        if start + 4 <= v@.len() {
            assert(s.skip(4) =~= v@.skip(start + 4));
        }
        if start + 5 <= v@.len() {
            assert(s.skip(5) =~= v@.skip(start + 5));
        }
    }
    if v.len() - start >= 4 && v[start] == 't' && v[start + 1] == 'r' && v[start + 2] == 'u'
        && v[start + 3] == 'e' {
        Some((true, start + 4))
    } else if v.len() - start >= 5 && v[start] == 'f' && v[start + 1] == 'a' && v[start + 2] == 'l'
        && v[start + 3] == 's' && v[start + 4] == 'e' {
        Some((false, start + 5))
    } else {
        None
    }
}

/// Whether the parsed characters are exactly the given key.
fn chars_eq_str(v: &Vec<char>, s: &str) -> (r: bool)
    ensures
        r == (v@ == s@),
{
    let n = s.unicode_len();
    if v.len() != n {
        proof {
            assert(v@ != s@);
        }
        return false;
    }
    let mut i: usize = 0;
    while i < n
        invariant
            n == s@.len() == v@.len(),
            0 <= i <= n,
            forall|j: int| 0 <= j < i ==> v@[j] == s@[j],
        decreases n - i,
    {
        if v[i] != s.get_char(i) {
            proof {
                assert(v@[i as int] != s@[i as int]);
            }
            return false;
        }
        i = i + 1;
    }
    proof {
        assert(v@ =~= s@);
    }
    true
}

/// The fields collected so far by the exec parser.
struct Fields {
    channel: Option<Vec<char>>,
    always_on_top: Option<bool>,
    transparent: Option<bool>,
}

/// Mathematical image of the collected fields.
spec fn fields_view(f: Fields) -> PartialPrefs {
    PartialPrefs {
        channel: match f.channel {
            Option::Some(v) => Some(v@),
            Option::None => None,
        },
        always_on_top: f.always_on_top,
        transparent: f.transparent,
    }
}

/// Parses one member at `start` and records its value in `acc`.
fn parse_member_at(v: &Vec<char>, start: usize, acc: &mut Fields) -> (res: Option<usize>)
    requires
        start <= v@.len(),
    ensures
        match res {
            Option::Some(end) => {
                &&& start <= end <= v@.len()
                &&& parse_member(v@.skip(start as int), fields_view(*old(acc))) == Some(
                    (fields_view(*final(acc)), v@.skip(end as int)),
                )
            },
            Option::None => {
                &&& parse_member(v@.skip(start as int), fields_view(*old(acc))) is None
                &&& fields_view(*final(acc)) == fields_view(*old(acc))
            },
        },
{
    proof {
        if start < v@.len() {
            lemma_suffix_step(v@, start as int);
        }
    }
    if start == v.len() || v[start] != '"' {
        return None;
    }
    let kr = match parse_string_at(v, start + 1) {
        Option::None => {
            return None;
        },
        Option::Some(kr) => kr,
    };
    let r2 = skip_ws_at(v, kr.1);
    proof {
        if r2 < v@.len() {
            lemma_suffix_step(v@, r2 as int);
        }
    }
    if r2 == v.len() || v[r2] != ':' {
        return None;
    }
    let r3 = skip_ws_at(v, r2 + 1);
    proof {
        if r3 < v@.len() {
            lemma_suffix_step(v@, r3 as int);
        }
    }
    if chars_eq_str(&kr.0, "channel") {
        if acc.channel.is_some() {
            return None;
        }
        if r3 == v.len() || v[r3] != '"' {
            return None;
        }
        match parse_string_at(v, r3 + 1) {
            Option::None => None,
            Option::Some(vr) => {
                acc.channel = Some(vr.0);
                Some(vr.1)
            },
        }
    } else if chars_eq_str(&kr.0, "always_on_top") {
        if acc.always_on_top.is_some() {
            return None;
        }
        match parse_bool_at(v, r3) {
            Option::None => None,
            Option::Some(br) => {
                acc.always_on_top = Some(br.0);
                Some(br.1)
            },
        }
    } else if chars_eq_str(&kr.0, "transparent") {
        if acc.transparent.is_some() {
            return None;
        }
        match parse_bool_at(v, r3) {
            Option::None => None,
            Option::Some(br) => {
                acc.transparent = Some(br.0);
                Some(br.1)
            },
        }
    } else {
        None
    }
}

/// Parses the three comma-separated members starting at `start`, collecting
/// their values in `acc`.
fn parse_members_at(v: &Vec<char>, start: usize, acc: &mut Fields) -> (res: Option<usize>)
    requires
        start <= v@.len(),
    ensures
        match res {
            Option::Some(end) => {
                &&& start <= end <= v@.len()
                &&& parse_members3(v@.skip(start as int), fields_view(*old(acc))) == Some(
                    (fields_view(*final(acc)), v@.skip(end as int)),
                )
            },
            Option::None => parse_members3(v@.skip(start as int), fields_view(*old(acc))) is None,
        },
{
    let m1 = match parse_member_at(v, start, acc) {
        Option::None => {
            return None;
        },
        Option::Some(end) => end,
    };
    let r1 = skip_ws_at(v, m1);
    proof {
        if r1 < v@.len() {
            lemma_suffix_step(v@, r1 as int);
        }
    }
    if r1 == v.len() || v[r1] != ',' {
        return None;
    }
    let p2 = skip_ws_at(v, r1 + 1);
    let m2 = match parse_member_at(v, p2, acc) {
        Option::None => {
            return None;
        },
        Option::Some(end) => end,
    };
    let r2 = skip_ws_at(v, m2);
    proof {
        if r2 < v@.len() {
            lemma_suffix_step(v@, r2 as int);
        }
    }
    if r2 == v.len() || v[r2] != ',' {
        return None;
    }
    let p3 = skip_ws_at(v, r2 + 1);
    parse_member_at(v, p3, acc)
}

/// Parses a state-file text; returns the record it denotes, or an error if
/// and only if the text does not match the accepted grammar.
pub fn from_json(s: &str) -> (r: Result<Preferences, ParseError>)
    ensures
        match r {
            Result::Ok(p) => parse_prefs(s@) == Some(p@),
            Result::Err(e) => parse_prefs(s@) is None && e == ParseError::Malformed,
        },
{
    let v = char_seq(s);
    proof {
        assert(v@.skip(0) =~= v@);
    }
    let s1 = skip_ws_at(&v, 0);
    proof {
        if s1 < v@.len() {
            lemma_suffix_step(v@, s1 as int);
        }
    }
    if s1 == v.len() || v[s1] != '{' {
        return Err(ParseError::Malformed);
    }
    let mut acc = Fields { channel: None, always_on_top: None, transparent: None };
    let p1 = skip_ws_at(&v, s1 + 1);
    let m3 = match parse_members_at(&v, p1, &mut acc) {
        Option::None => {
            return Err(ParseError::Malformed);
        },
        Option::Some(end) => end,
    };
    let r3 = skip_ws_at(&v, m3);
    proof {
        if r3 < v@.len() {
            lemma_suffix_step(v@, r3 as int);
        }
    }
    if r3 == v.len() || v[r3] != '}' {
        return Err(ParseError::Malformed);
    }
    let fin = skip_ws_at(&v, r3 + 1);
    if fin != v.len() {
        return Err(ParseError::Malformed);
    }
    match (acc.channel, acc.always_on_top, acc.transparent) {
        (Option::Some(c), Option::Some(a), Option::Some(t)) => {
            let channel = chars_to_string(&c);
            Ok(Preferences { channel, always_on_top: a, transparent: t })
        },
        _ => Err(ParseError::Malformed),
    }
}

// ---------------------------------------------------------------------------
// Round trip: what saving writes, loading parses back
// ---------------------------------------------------------------------------

/// Prepending one character to a sequence.
proof fn lemma_cons(x: char, rest: Seq<char>)
    ensures
        (seq![x] + rest).len() == 1 + rest.len(),
        (seq![x] + rest)[0] == x,
        (seq![x] + rest).drop_first() == rest,
{
    assert((seq![x] + rest).drop_first() =~= rest);
}

/// `skip_ws` leaves text that does not start with whitespace alone.
proof fn lemma_skip_ws_id(s: Seq<char>)
    requires
        s.len() == 0 || !is_json_ws(s[0]),
    ensures
        skip_ws(s) == s,
{
}

/// A string literal's body parses back to exactly the characters it escapes.
proof fn lemma_parse_escaped(c: Seq<char>, rest: Seq<char>)
    ensures
        parse_string_body(escape_string(c) + seq!['"'] + rest) == Some((c, rest)),
    decreases c.len(),
{
    if c.len() == 0 {
        assert(escape_string(c) + seq!['"'] + rest =~= seq!['"'] + rest);
        lemma_cons('"', rest);
        assert(c =~= Seq::<char>::empty());
    } else {
        let c0 = c[0];
        let ctail = c.drop_first();
        lemma_parse_escaped(ctail, rest);
        let tail_in = escape_string(ctail) + seq!['"'] + rest;
        let s = escape_string(c) + seq!['"'] + rest;
        if c0 == '"' || c0 == '\\' || c0 == '\n' || c0 == '\r' || c0 == '\t' {
            let e = escape_char(c0)[1];
            assert(unescape_char(e) == Some(c0));
            assert(s =~= seq!['\\'] + (seq![e] + tail_in));
            lemma_cons('\\', seq![e] + tail_in);
            lemma_cons(e, tail_in);
            assert(s[0] == '\\');
            assert(s[1] == e);
            assert(s.len() >= 2);
            assert(s.skip(2) =~= tail_in);
            assert(seq![c0] + ctail =~= c);
        } else {
            assert(escape_char(c0) =~= seq![c0]);
            assert(s =~= seq![c0] + tail_in);
            lemma_cons(c0, tail_in);
            assert(s[0] == c0 && c0 != '"' && c0 != '\\');
            assert(s.drop_first() == tail_in);
            assert(seq![c0] + ctail =~= c);
        }
    }
}

/// Escaping changes nothing in text without characters that need an escape.
proof fn lemma_escape_id(s: Seq<char>)
    requires
        forall|i: int|
            0 <= i < s.len() ==> s[i] != '"' && s[i] != '\\' && s[i] != '\n' && s[i] != '\r'
                && s[i] != '\t',
    ensures
        escape_string(s) == s,
    decreases s.len(),
{
    if s.len() > 0 {
        assert(escape_char(s[0]) =~= seq![s[0]]);
        assert(forall|i: int| 0 <= i < s.drop_first().len() ==> s.drop_first()[i] == s[i + 1]);
        lemma_escape_id(s.drop_first());
        assert(seq![s[0]] + s.drop_first() =~= s);
    }
}

/// A boolean's text parses back to the boolean.
proof fn lemma_parse_bool_text(b: bool, rest: Seq<char>)
    ensures
        parse_bool(bool_text(b) + rest) == Some((b, rest)),
{
    reveal_strlit("true");
    reveal_strlit("false");
    let s = bool_text(b) + rest;
    if b {
        assert(s.len() >= 4);
        assert(s[0] == 't' && s[1] == 'r' && s[2] == 'u' && s[3] == 'e');
        assert(s.skip(4) =~= rest);
    } else {
        assert(s.len() >= 5);
        assert(s[0] == 'f' && s[1] == 'a' && s[2] == 'l' && s[3] == 's' && s[4] == 'e');
        assert(s.skip(5) =~= rest);
    }
}

/// One key, with no character that needs an escape.
proof fn lemma_plain_key(k: Seq<char>)
    requires
        forall|i: int|
            0 <= i < k.len() ==> k[i] != '"' && k[i] != '\\' && k[i] != '\n' && k[i] != '\r'
                && k[i] != '\t',
    ensures
        forall|rest: Seq<char>|
            #[trigger] parse_string_body(k + seq!['"'] + rest) == Some((k, rest)),
{
    lemma_escape_id(k);
    assert forall|rest: Seq<char>|
        #[trigger] parse_string_body(k + seq!['"'] + rest) == Some((k, rest)) by {
        lemma_parse_escaped(k, rest);
    }
}

/// The keys hold no character that needs an escape, and differ.
proof fn lemma_keys()
    ensures
        forall|rest: Seq<char>|
            #[trigger] parse_string_body("channel"@ + seq!['"'] + rest) == Some(("channel"@, rest)),
        forall|rest: Seq<char>|
            #[trigger] parse_string_body("always_on_top"@ + seq!['"'] + rest) == Some(
                ("always_on_top"@, rest),
            ),
        forall|rest: Seq<char>|
            #[trigger] parse_string_body("transparent"@ + seq!['"'] + rest) == Some(
                ("transparent"@, rest),
            ),
        "always_on_top"@ != "channel"@,
        "transparent"@ != "channel"@,
        "transparent"@ != "always_on_top"@,
{
    reveal_strlit("channel");
    reveal_strlit("always_on_top");
    reveal_strlit("transparent");
    assert("channel"@.len() == 7);
    assert("always_on_top"@.len() == 13);
    assert("transparent"@.len() == 11);
    lemma_plain_key("channel"@);
    lemma_plain_key("always_on_top"@);
    lemma_plain_key("transparent"@);
}

/// A member whose value is the channel string.
proof fn lemma_member_channel(chan: Seq<char>, rest: Seq<char>, acc: PartialPrefs)
    requires
        acc.channel is None,
    ensures
        parse_member(
            seq!['"'] + "channel"@ + seq!['"', ':', '"'] + escape_string(chan) + seq!['"'] + rest,
            acc,
        ) == Some(
            (
                (PartialPrefs {
                    channel: Some(chan),
                    always_on_top: acc.always_on_top,
                    transparent: acc.transparent,
                }),
                rest,
            ),
        ),
{
    lemma_keys();
    let s = seq!['"'] + "channel"@ + seq!['"', ':', '"'] + escape_string(chan) + seq!['"'] + rest;
    let val_in = escape_string(chan) + seq!['"'] + rest;
    let after_key = seq![':'] + (seq!['"'] + val_in);
    assert(s =~= seq!['"'] + ("channel"@ + (seq!['"'] + after_key)));
    lemma_cons('"', "channel"@ + (seq!['"'] + after_key));
    assert(s[0] == '"');
    assert(s.drop_first() =~= "channel"@ + seq!['"'] + after_key);
    assert(parse_string_body(s.drop_first()) == Some(("channel"@, after_key)));
    lemma_cons(':', seq!['"'] + val_in);
    lemma_skip_ws_id(after_key);
    lemma_cons('"', val_in);
    lemma_skip_ws_id(seq!['"'] + val_in);
    lemma_parse_escaped(chan, rest);
}

/// A member whose value is the always-on-top flag.
proof fn lemma_member_aot(b: bool, rest: Seq<char>, acc: PartialPrefs)
    requires
        acc.always_on_top is None,
    ensures
        parse_member(seq!['"'] + "always_on_top"@ + seq!['"', ':'] + bool_text(b) + rest, acc)
            == Some(
            (
                (PartialPrefs {
                    channel: acc.channel,
                    always_on_top: Some(b),
                    transparent: acc.transparent,
                }),
                rest,
            ),
        ),
{
    lemma_keys();
    reveal_strlit("true");
    reveal_strlit("false");
    let s = seq!['"'] + "always_on_top"@ + seq!['"', ':'] + bool_text(b) + rest;
    let val_in = bool_text(b) + rest;
    let after_key = seq![':'] + val_in;
    assert(s =~= seq!['"'] + ("always_on_top"@ + (seq!['"'] + after_key)));
    lemma_cons('"', "always_on_top"@ + (seq!['"'] + after_key));
    assert(s[0] == '"');
    assert(s.drop_first() =~= "always_on_top"@ + seq!['"'] + after_key);
    assert(parse_string_body(s.drop_first()) == Some(("always_on_top"@, after_key)));
    lemma_cons(':', val_in);
    lemma_skip_ws_id(after_key);
    assert(val_in[0] == 't' || val_in[0] == 'f');
    lemma_skip_ws_id(val_in);
    lemma_parse_bool_text(b, rest);
}

/// A member whose value is the transparency flag.
proof fn lemma_member_tr(b: bool, rest: Seq<char>, acc: PartialPrefs)
    requires
        acc.transparent is None,
    ensures
        parse_member(seq!['"'] + "transparent"@ + seq!['"', ':'] + bool_text(b) + rest, acc)
            == Some(
            (
                (PartialPrefs {
                    channel: acc.channel,
                    always_on_top: acc.always_on_top,
                    transparent: Some(b),
                }),
                rest,
            ),
        ),
{
    lemma_keys();
    reveal_strlit("true");
    reveal_strlit("false");
    let s = seq!['"'] + "transparent"@ + seq!['"', ':'] + bool_text(b) + rest;
    let val_in = bool_text(b) + rest;
    let after_key = seq![':'] + val_in;
    assert(s =~= seq!['"'] + ("transparent"@ + (seq!['"'] + after_key)));
    lemma_cons('"', "transparent"@ + (seq!['"'] + after_key));
    assert(s[0] == '"');
    assert(s.drop_first() =~= "transparent"@ + seq!['"'] + after_key);
    assert(parse_string_body(s.drop_first()) == Some(("transparent"@, after_key)));
    lemma_cons(':', val_in);
    lemma_skip_ws_id(after_key);
    assert(val_in[0] == 't' || val_in[0] == 'f');
    lemma_skip_ws_id(val_in);
    lemma_parse_bool_text(b, rest);
}

/// Saving then loading gives back exactly the record that was saved: the
/// canonical text of any record parses to that record.
pub proof fn lemma_canonical_roundtrip(p: PrefsView)
    ensures
        parse_prefs(canonical_json(p)) == Some(p),
{
    reveal_strlit("{\"channel\":\"");
    reveal_strlit("\",\"always_on_top\":");
    reveal_strlit(",\"transparent\":");
    reveal_strlit("}");
    reveal_strlit("channel");
    reveal_strlit("always_on_top");
    reveal_strlit("transparent");
    reveal_strlit("true");
    reveal_strlit("false");
    let s = canonical_json(p);
    let rest3 = seq!['}'];
    let m3in = seq!['"'] + "transparent"@ + seq!['"', ':'] + bool_text(p.transparent) + rest3;
    let rest2 = seq![','] + m3in;
    let m2in = seq!['"'] + "always_on_top"@ + seq!['"', ':'] + bool_text(p.always_on_top) + rest2;
    let rest1 = seq![','] + m2in;
    let m1in = seq!['"'] + "channel"@ + seq!['"', ':', '"'] + escape_string(p.channel) + seq!['"']
        + rest1;
    assert(s =~= seq!['{'] + m1in);
    lemma_cons('{', m1in);
    lemma_skip_ws_id(s);
    assert(skip_ws(s) == s && s[0] == '{' && s.drop_first() == m1in);
    lemma_skip_ws_id(m1in);
    assert(m1in[0] == '"');

    let acc0 = empty_partial();
    lemma_member_channel(p.channel, rest1, acc0);
    let acc1 = PartialPrefs {
        channel: Some(p.channel),
        always_on_top: None,
        transparent: None,
    };
    assert(parse_member(m1in, acc0) == Some((acc1, rest1)));

    lemma_cons(',', m2in);
    lemma_skip_ws_id(rest1);
    assert(rest1[0] == ',' && rest1.drop_first() == m2in);
    lemma_skip_ws_id(m2in);
    assert(m2in[0] == '"');
    lemma_member_aot(p.always_on_top, rest2, acc1);
    let acc2 = PartialPrefs {
        channel: Some(p.channel),
        always_on_top: Some(p.always_on_top),
        transparent: None,
    };
    assert(parse_member(m2in, acc1) == Some((acc2, rest2)));

    lemma_cons(',', m3in);
    lemma_skip_ws_id(rest2);
    assert(rest2[0] == ',' && rest2.drop_first() == m3in);
    lemma_skip_ws_id(m3in);
    assert(m3in[0] == '"');
    lemma_member_tr(p.transparent, rest3, acc2);
    let acc3 = PartialPrefs {
        channel: Some(p.channel),
        always_on_top: Some(p.always_on_top),
        transparent: Some(p.transparent),
    };
    assert(parse_member(m3in, acc2) == Some((acc3, rest3)));

    assert(parse_members3(m1in, acc0) == Some((acc3, rest3)));

    lemma_skip_ws_id(rest3);
    assert(rest3[0] == '}');
    assert(rest3.drop_first() =~= Seq::<char>::empty());
    assert(skip_ws(rest3.drop_first()).len() == 0);
    assert(PrefsView {
        channel: p.channel,
        always_on_top: p.always_on_top,
        transparent: p.transparent,
    } =~= p);
}

} // verus!
