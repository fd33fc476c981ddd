//! The protocol translator: the textual wire envelope.
//!
//! Each message travels as one object with a leading string discriminant
//! under the key `type`, followed by the variant's payload fields in a fixed
//! order.  The encoder emits this canonical envelope: no insignificant
//! whitespace, `"` and `\` escaped with a backslash, every other character —
//! control characters included — carried raw; numbers are carried as their
//! literal text (see [`crate::messages::wf_num_text`]).  The decoder accepts
//! the canonical envelope plus the standard single-character string escapes
//! (`\/`, `\n`, `\t`, `\r`, `\b`, `\f`); it does not accept reordered keys,
//! whitespace between tokens, or `\uXXXX` escapes.  That is a deliberate
//! constraint on the wire: clients must send the envelope as this codec
//! defines it.  A malformed or unrecognized envelope decodes to `None` and
//! is dropped by the caller; no error event is emitted for it.  Encoding
//! never fails for well-formed event values, and decoding an encoded
//! message gives back exactly the original value.
use vstd::prelude::*;

use crate::messages::ClientMessage;
use crate::messages::ClientMessageView;
use crate::messages::Coord;
use crate::messages::Player;
use crate::messages::PlayerView;
use crate::messages::ServerMessage;
use crate::messages::ServerMessageView;
use crate::messages::exec_is_num_char;
use crate::messages::is_num_char;
use crate::messages::wf_num_text;

verus! {

/// Relies on String::push: appends exactly the one given character.
#[verifier::external_body]
fn push_char(out: &mut String, c: char)
    ensures
        final(out)@ == old(out)@.push(c),
{
    out.push(c);
}

/// How one character is carried inside a quoted string: `"` and `\` get a
/// backslash, every other character stands for itself.
pub open spec fn esc_char(c: char) -> Seq<char> {
    if c == '"' || c == '\\' {
        seq!['\\', c]
    } else {
        seq![c]
    }
}

/// The escaped form of a whole string.
pub open spec fn esc(s: Seq<char>) -> Seq<char>
    decreases s.len(),
{
    if s.len() == 0 {
        Seq::empty()
    } else {
        esc_char(s[0]) + esc(s.drop_first())
    }
}

pub proof fn lemma_esc_snoc(s: Seq<char>, c: char)
    ensures
        esc(s.push(c)) == esc(s) + esc_char(c),
    decreases s.len(),
{
    if s.len() == 0 {
        assert((s.push(c))[0] == c);
        assert(s.push(c).drop_first() =~= Seq::<char>::empty());
        assert(esc(s.push(c)) == esc_char(c) + esc(Seq::<char>::empty()));
        assert(esc_char(c) + Seq::<char>::empty() =~= esc_char(c));
        assert(esc(s) + esc_char(c) =~= esc_char(c));
    } else {
        assert(s.push(c).drop_first() =~= s.drop_first().push(c));
        lemma_esc_snoc(s.drop_first(), c);
        assert(esc(s.push(c)) =~= esc(s) + esc_char(c));
    }
}

/// A string without escapable characters is carried verbatim.
pub proof fn lemma_esc_clean(s: Seq<char>)
    requires
        forall|k: int| 0 <= k < s.len() ==> s[k] != '"' && s[k] != '\\',
    ensures
        esc(s) == s,
    decreases s.len(),
{
    if s.len() == 0 {
        assert(esc(s) =~= s);
    } else {
        lemma_esc_clean(s.drop_first());
        assert(esc(s) =~= s);
    }
}

/// Appends the escaped form of `s` to `out`.
fn escape_append(out: &mut String, s: &str)
    ensures
        final(out)@ == old(out)@ + esc(s@),
{
    let n = s.unicode_len();
    let mut i: usize = 0;
    while i < n
        invariant
            0 <= i <= n,
            n == s@.len(),
            out@ == old(out)@ + esc(s@.take(i as int)),
        decreases n - i,
    {
        let c = s.get_char(i);
        if c == '"' || c == '\\' {
            push_char(out, '\\');
            push_char(out, c);
        } else {
            push_char(out, c);
        }
        proof {
            assert(s@.take(i + 1) =~= s@.take(i as int).push(c));
            lemma_esc_snoc(s@.take(i as int), c);
            assert(out@ =~= old(out)@ + esc(s@.take(i + 1)));
        }
        i += 1;
    }
    proof {
        assert(s@.take(n as int) =~= s@);
    }
}

/// What the character after a backslash denotes inside a quoted string: the
/// two escapes the encoder emits (`\"`, `\\`), plus the other standard
/// single-character escapes, accepted for leniency on input.  `None` for an
/// unknown escape; `\uXXXX` is not among the accepted forms.
#[verifier::opaque]
pub open spec fn unescape_char(c: char) -> Option<char> {
    if c == '"' || c == '\\' || c == '/' {
        Some(c)
    } else if c == 'n' {
        Some('\n')
    } else if c == 't' {
        Some('\t')
    } else if c == 'r' {
        Some('\r')
    } else if c == 'b' {
        Some('\u{0008}')
    } else if c == 'f' {
        Some('\u{000C}')
    } else {
        None
    }
}

/// Executable mirror of [`unescape_char`].
fn exec_unescape_char(c: char) -> (r: Option<char>)
    ensures
        r == unescape_char(c),
{
    proof {
        reveal(unescape_char);
    }
    if c == '"' || c == '\\' || c == '/' {
        Some(c)
    } else if c == 'n' {
        Some('\n')
    } else if c == 't' {
        Some('\t')
    } else if c == 'r' {
        Some('\r')
    } else if c == 'b' {
        Some('\u{0008}')
    } else if c == 'f' {
        Some('\u{000C}')
    } else {
        None
    }
}

/// Parses a quoted string body up to its closing quote: the decoded
/// characters and the remainder after the quote.  Fails on a dangling
/// backslash, an unknown escape, or a missing closing quote.
pub open spec fn spec_parse_str(s: Seq<char>) -> Option<(Seq<char>, Seq<char>)>
    decreases s.len(),
{
    if s.len() == 0 {
        None
    } else if s[0] == '"' {
        Some((Seq::empty(), s.drop_first()))
    } else if s[0] == '\\' {
        if s.len() >= 2 {
            match unescape_char(s[1]) {
                Some(u) => match spec_parse_str(s.subrange(2, s.len() as int)) {
                    Some(tr) => Some((seq![u] + tr.0, tr.1)),
                    None => None,
                },
                None => None,
            }
        } else {
            None
        }
    } else {
        match spec_parse_str(s.drop_first()) {
            Some(tr) => Some((seq![s[0]] + tr.0, tr.1)),
            None => None,
        }
    }
}

/// Parsing inverts escaping: the escaped form of `t`, a closing quote, and
/// any remainder parse back to exactly `t` and that remainder.
pub proof fn lemma_parse_esc(t: Seq<char>, rest: Seq<char>)
    ensures
        spec_parse_str(esc(t) + seq!['"'] + rest) == Some((t, rest)),
    decreases t.len(),
{
    let s = esc(t) + seq!['"'] + rest;
    if t.len() == 0 {
        assert(esc(t) =~= Seq::<char>::empty());
        assert(s[0] == '"');
        assert(s.drop_first() =~= rest);
    } else {
        lemma_parse_esc(t.drop_first(), rest);
        let s1 = esc(t.drop_first()) + seq!['"'] + rest;
        if t[0] == '"' || t[0] == '\\' {
            assert(esc(t) =~= seq!['\\', t[0]] + esc(t.drop_first()));
            assert(s[0] == '\\');
            assert(s[1] == t[0]);
            assert(s.len() >= 2);
            assert(unescape_char(s[1]) == Some(t[0])) by {
                reveal(unescape_char);
            }
            assert(s.subrange(2, s.len() as int) =~= s1);
            assert(seq![s[1]] + t.drop_first() =~= t);
        } else {
            assert(esc(t) =~= seq![t[0]] + esc(t.drop_first()));
            assert(s[0] == t[0]);
            assert(s.drop_first() =~= s1);
            assert(seq![s[0]] + t.drop_first() =~= t);
        }
    }
}

/// Reads a quoted string body starting at `i` (just after the opening
/// quote); on success returns the decoded text and the index just past the
/// closing quote.
fn parse_str_at(s: &str, i: usize, n: usize) -> (r: Option<(String, usize)>)
    requires
        i <= n,
        n == s@.len(),
    ensures
        match r {
            Some(tj) => {
                &&& i <= tj.1 <= n
                &&& spec_parse_str(s@.skip(i as int)) == Some(
                    (tj.0@, s@.skip(tj.1 as int)),
                )
            },
            None => spec_parse_str(s@.skip(i as int)) is None,
        },
{
    let mut acc = String::new();
    let mut j: usize = i;
    loop
        invariant
            i <= j <= n,
            n == s@.len(),
            spec_parse_str(s@.skip(i as int)) == (match spec_parse_str(s@.skip(j as int)) {
                Some(tr) => Some((acc@ + tr.0, tr.1)),
                None => None::<(Seq<char>, Seq<char>)>,
            }),
        decreases n - j,
    {
        if j == n {
            proof {
                assert(s@.skip(j as int) =~= Seq::<char>::empty());
            }
            return None;
        }
        let c = s.get_char(j);
        proof {
            assert(s@.skip(j as int)[0] == s@[j as int]);
        }
        if c == '"' {
            proof {
                assert(s@.skip(j as int).drop_first() =~= s@.skip(j + 1));
                assert(acc@ + Seq::<char>::empty() =~= acc@);
            }
            return Some((acc, j + 1));
        } else if c == '\\' {
            if j + 1 == n {
                proof {
                    assert(s@.skip(j as int).len() == 1);
                }
                return None;
            }
            let c2 = s.get_char(j + 1);
            proof {
                assert(s@.skip(j as int)[1] == s@[j + 1]);
            }
            if let Some(u) = exec_unescape_char(c2) {
                let ghost acc0 = acc@;
                push_char(&mut acc, u);
                proof {
                    let sj = s@.skip(j as int);
                    assert(sj.subrange(2, sj.len() as int) =~= s@.skip(j + 2));
                    assert forall|t2: Seq<char>| true implies acc0 + (seq![u] + t2) =~= acc@
                        + t2 by {
                        assert(acc@ =~= acc0.push(u));
                    }
                }
                j += 2;
            } else {
                return None;
            }
        } else {
            let ghost acc0 = acc@;
            push_char(&mut acc, c);
            proof {
                let sj = s@.skip(j as int);
                assert(sj.drop_first() =~= s@.skip(j + 1));
                assert forall|t2: Seq<char>| true implies acc0 + (seq![sj[0]] + t2) =~= acc@
                    + t2 by {
                    assert(acc@ =~= acc0.push(c));
                }
            }
            j += 1;
        }
    }
}

/// Splits off the longest leading run of number characters.
pub open spec fn spec_take_num(s: Seq<char>) -> (Seq<char>, Seq<char>)
    decreases s.len(),
{
    if s.len() > 0 && is_num_char(s[0]) {
        let tr = spec_take_num(s.drop_first());
        (seq![s[0]] + tr.0, tr.1)
    } else {
        (Seq::empty(), s)
    }
}

/// Taking a number token inverts splicing one in: a well-formed number text
/// followed by anything that does not begin with a number character comes
/// back out whole.
pub proof fn lemma_take_num(t: Seq<char>, rest: Seq<char>)
    requires
        forall|k: int| 0 <= k < t.len() ==> is_num_char(#[trigger] t[k]),
        rest.len() == 0 || !is_num_char(rest[0]),
    ensures
        spec_take_num(t + rest).0 == t,
        spec_take_num(t + rest).1 == rest,
    decreases t.len(),
{
    if t.len() == 0 {
        assert(t + rest =~= rest);
        assert(spec_take_num(rest).0 =~= t);
    } else {
        assert((t + rest)[0] == t[0]);
        assert((t + rest).drop_first() =~= t.drop_first() + rest);
        lemma_take_num(t.drop_first(), rest);
        assert(seq![t[0]] + t.drop_first() =~= t);
    }
}

/// Reads a number token starting at `i`; on success returns the token text
/// (non-empty, and well formed) and the index just past it.
fn parse_num_at(s: &str, i: usize, n: usize) -> (r: Option<(String, usize)>)
    requires
        i <= n,
        n == s@.len(),
    ensures
        match r {
            Some(tj) => {
                &&& i <= tj.1 <= n
                &&& tj.0@ == spec_take_num(s@.skip(i as int)).0
                &&& s@.skip(tj.1 as int) == spec_take_num(s@.skip(i as int)).1
                &&& wf_num_text(tj.0@)
            },
            None => spec_take_num(s@.skip(i as int)).0.len() == 0,
        },
{
    let mut acc = String::new();
    let mut j: usize = i;
    loop
        invariant
            i <= j <= n,
            n == s@.len(),
            acc@.len() == j - i,
            forall|k: int| 0 <= k < acc@.len() ==> is_num_char(#[trigger] acc@[k]),
            spec_take_num(s@.skip(i as int)).0 == acc@ + spec_take_num(s@.skip(j as int)).0,
            spec_take_num(s@.skip(i as int)).1 == spec_take_num(s@.skip(j as int)).1,
        ensures
            i <= j <= n,
            n == s@.len(),
            forall|k: int| 0 <= k < acc@.len() ==> is_num_char(#[trigger] acc@[k]),
            spec_take_num(s@.skip(i as int)).0 == acc@,
            spec_take_num(s@.skip(i as int)).1 == s@.skip(j as int),
        decreases n - j,
    {
        if j == n {
            proof {
                assert(s@.skip(j as int) =~= Seq::<char>::empty());
                assert(acc@ + Seq::<char>::empty() =~= acc@);
            }
            break;
        }
        let c = s.get_char(j);
        proof {
            assert(s@.skip(j as int)[0] == s@[j as int]);
        }
        if !exec_is_num_char(c) {
            proof {
                assert(acc@ + Seq::<char>::empty() =~= acc@);
            }
            break;
        }
        let ghost acc0 = acc@;
        push_char(&mut acc, c);
        proof {
            let sj = s@.skip(j as int);
            assert(sj.drop_first() =~= s@.skip(j + 1));
            assert(acc0 + (seq![sj[0]] + spec_take_num(s@.skip(j + 1)).0) =~= acc@
                + spec_take_num(s@.skip(j + 1)).0);
        }
        j += 1;
    }
    if acc.as_str().is_empty() {
        None
    } else {
        Some((acc, j))
    }
}

/// Whether `s` begins with `lit`; on success, the remainder after it.
pub open spec fn spec_expect(s: Seq<char>, lit: Seq<char>) -> Option<Seq<char>> {
    if lit.len() <= s.len() && s.take(lit.len() as int) == lit {
        Some(s.skip(lit.len() as int))
    } else {
        None
    }
}

/// Matching a literal inverts splicing it in front.
pub proof fn lemma_expect_concat(lit: Seq<char>, rest: Seq<char>)
    ensures
        spec_expect(lit + rest, lit) == Some(rest),
{
    assert((lit + rest).take(lit.len() as int) =~= lit);
    assert((lit + rest).skip(lit.len() as int) =~= rest);
}

/// Matches the exact characters of `lit` at `i`; on success returns the
/// index just past them.
fn expect_lit(s: &str, i: usize, n: usize, lit: &str) -> (r: Option<usize>)
    requires
        i <= n,
        n == s@.len(),
    ensures
        match r {
            Some(j) => i <= j <= n && spec_expect(s@.skip(i as int), lit@) == Some(
                s@.skip(j as int),
            ),
            None => spec_expect(s@.skip(i as int), lit@) is None,
        },
{
    let m = lit.unicode_len();
    if n - i < m {
        return None;
    }
    let mut k: usize = 0;
    while k < m
        invariant
            0 <= k <= m,
            m == lit@.len(),
            i + m <= n,
            i <= n,
            n == s@.len(),
            forall|q: int| 0 <= q < k ==> s@[i + q] == lit@[q],
        decreases m - k,
    {
        if s.get_char(i + k) != lit.get_char(k) {
            proof {
                assert(s@.skip(i as int).take(m as int)[k as int] == s@[i + k]);
            }
            return None;
        }
        k += 1;
    }
    proof {
        assert(s@.skip(i as int).take(m as int) =~= lit@);
        assert(s@.skip(i as int).skip(m as int) =~= s@.skip(i + m));
    }
    Some(i + m)
}

/// Compares a parsed tag against a literal discriminant.
fn str_is(tag: &String, lit: &str) -> (r: bool)
    ensures
        r == (tag@ == lit@),
{
    let l = String::from_str(lit);
    *tag == l
}

/// The canonical envelope of an inbound message.
pub open spec fn spec_encode_client(m: ClientMessageView) -> Seq<char> {
    match m {
        ClientMessageView::Join { player_id, player_name } => ("{\"type\":\"")@ + ("Join")@
            + seq!['"'] + (",\"player_id\":\"")@ + esc(player_id) + seq!['"']
            + (",\"player_name\":\"")@ + esc(player_name) + seq!['"'] + ("}")@,
        ClientMessageView::UpdatePosition { x, y, z } => ("{\"type\":\"")@ + ("UpdatePosition")@
            + seq!['"'] + (",\"x\":")@ + x + (",\"y\":")@ + y + (",\"z\":")@ + z + ("}")@,
        ClientMessageView::Leave => ("{\"type\":\"")@ + ("Leave")@ + seq!['"'] + ("}")@,
    }
}

/// Encodes an inbound message to its canonical envelope.  Encoding cannot
/// fail.
pub fn encode_client_message(m: &ClientMessage) -> (r: String)
    ensures
        r@ == spec_encode_client(m.deep_view()),
{
    let mut out = String::new();
    out.append("{\"type\":\"");
    match m {
        ClientMessage::Join { player_id, player_name } => {
            out.append("Join");
            push_char(&mut out, '"');
            out.append(",\"player_id\":\"");
            escape_append(&mut out, player_id.as_str());
            push_char(&mut out, '"');
            out.append(",\"player_name\":\"");
            escape_append(&mut out, player_name.as_str());
            push_char(&mut out, '"');
            out.append("}");
            proof {
                assert(out@ =~= spec_encode_client(m.deep_view()));
            }
        },
        ClientMessage::UpdatePosition { x, y, z } => {
            out.append("UpdatePosition");
            push_char(&mut out, '"');
            out.append(",\"x\":");
            out.append(x.text.as_str());
            out.append(",\"y\":");
            out.append(y.text.as_str());
            out.append(",\"z\":");
            out.append(z.text.as_str());
            out.append("}");
            proof {
                assert(out@ =~= spec_encode_client(m.deep_view()));
            }
        },
        ClientMessage::Leave => {
            out.append("Leave");
            push_char(&mut out, '"');
            out.append("}");
            proof {
                assert(out@ =~= spec_encode_client(m.deep_view()));
            }
        },
    }
    out
}

/// The single closing brace that ends every envelope.
pub open spec fn spec_decode_end<A>(s: Seq<char>, built: A) -> Option<A> {
    match spec_expect(s, ("}")@) {
        Some(r) => if r.len() == 0 {
            Some(built)
        } else {
            None
        },
        None => None,
    }
}

/// The payload of a Join envelope, after its discriminant.
pub open spec fn spec_decode_join(s: Seq<char>) -> Option<ClientMessageView> {
    match spec_expect(s, (",\"player_id\":\"")@) {
        None => None,
        Some(r1) => match spec_parse_str(r1) {
            None => None,
            Some(idr) => match spec_expect(idr.1, (",\"player_name\":\"")@) {
                None => None,
                Some(r2) => match spec_parse_str(r2) {
                    None => None,
                    Some(namer) => spec_decode_end(
                        namer.1,
                        ClientMessageView::Join { player_id: idr.0, player_name: namer.0 },
                    ),
                },
            },
        },
    }
}

/// The payload of an UpdatePosition envelope, after its discriminant.
pub open spec fn spec_decode_update(s: Seq<char>) -> Option<ClientMessageView> {
    match spec_expect(s, (",\"x\":")@) {
        None => None,
        Some(r1) => {
            let xt = spec_take_num(r1);
            if xt.0.len() == 0 {
                None
            } else {
                match spec_expect(xt.1, (",\"y\":")@) {
                    None => None,
                    Some(r2) => {
                        let yt = spec_take_num(r2);
                        if yt.0.len() == 0 {
                            None
                        } else {
                            match spec_expect(yt.1, (",\"z\":")@) {
                                None => None,
                                Some(r3) => {
                                    let zt = spec_take_num(r3);
                                    if zt.0.len() == 0 {
                                        None
                                    } else {
                                        spec_decode_end(
                                            zt.1,
                                            ClientMessageView::UpdatePosition {
                                                x: xt.0,
                                                y: yt.0,
                                                z: zt.0,
                                            },
                                        )
                                    }
                                },
                            }
                        }
                    },
                }
            }
        },
    }
}

/// Decodes an inbound envelope; `None` for anything malformed or
/// unrecognized — such frames are dropped by the session.
pub open spec fn spec_decode_client(s: Seq<char>) -> Option<ClientMessageView> {
    match spec_expect(s, ("{\"type\":\"")@) {
        None => None,
        Some(r1) => match spec_parse_str(r1) {
            None => None,
            Some(tagr) => if tagr.0 == ("Join")@ {
                spec_decode_join(tagr.1)
            } else if tagr.0 == ("UpdatePosition")@ {
                spec_decode_update(tagr.1)
            } else if tagr.0 == ("Leave")@ {
                spec_decode_end(tagr.1, ClientMessageView::Leave)
            } else {
                None
            },
        },
    }
}

/// Reads the closing brace and the end of input.
fn decode_end(s: &str, i: usize, n: usize) -> (r: bool)
    requires
        i <= n,
        n == s@.len(),
    ensures
        ({
            let e = spec_expect(s@.skip(i as int), ("}")@);
            r == (e is Some && e->0.len() == 0)
        }),
{
    match expect_lit(s, i, n, "}") {
        Some(j) => j == n,
        None => false,
    }
}

/// Decodes one inbound text frame.
pub fn decode_client_message(s: &str) -> (r: Option<ClientMessage>)
    ensures
        r.deep_view() == spec_decode_client(s@),
        match r {
            Some(m) => m.wf(),
            None => true,
        },
{
    let n = s.unicode_len();
    proof {
        assert(s@.skip(0) =~= s@);
    }
    let i = match expect_lit(s, 0, n, "{\"type\":\"") {
        Some(i) => i,
        None => {
            return None;
        },
    };
    let (tag, i) = match parse_str_at(s, i, n) {
        Some(ti) => ti,
        None => {
            return None;
        },
    };
    if str_is(&tag, "Join") {
        let i = match expect_lit(s, i, n, ",\"player_id\":\"") {
            Some(i) => i,
            None => {
                return None;
            },
        };
        let (player_id, i) = match parse_str_at(s, i, n) {
            Some(ti) => ti,
            None => {
                return None;
            },
        };
        let i = match expect_lit(s, i, n, ",\"player_name\":\"") {
            Some(i) => i,
            None => {
                return None;
            },
        };
        let (player_name, i) = match parse_str_at(s, i, n) {
            Some(ti) => ti,
            None => {
                return None;
            },
        };
        if decode_end(s, i, n) {
            Some(ClientMessage::Join { player_id, player_name })
        } else {
            None
        }
    } else if str_is(&tag, "UpdatePosition") {
        let i = match expect_lit(s, i, n, ",\"x\":") {
            Some(i) => i,
            None => {
                return None;
            },
        };
        let (x, i) = match parse_num_at(s, i, n) {
            Some(ti) => ti,
            None => {
                return None;
            },
        };
        let i = match expect_lit(s, i, n, ",\"y\":") {
            Some(i) => i,
            None => {
                return None;
            },
        };
        let (y, i) = match parse_num_at(s, i, n) {
            Some(ti) => ti,
            None => {
                return None;
            },
        };
        let i = match expect_lit(s, i, n, ",\"z\":") {
            Some(i) => i,
            None => {
                return None;
            },
        };
        let (z, i) = match parse_num_at(s, i, n) {
            Some(ti) => ti,
            None => {
                return None;
            },
        };
        if decode_end(s, i, n) {
            Some(
                ClientMessage::UpdatePosition {
                    x: Coord { text: x },
                    y: Coord { text: y },
                    z: Coord { text: z },
                },
            )
        } else {
            None
        }
    } else if str_is(&tag, "Leave") {
        if decode_end(s, i, n) {
            Some(ClientMessage::Leave)
        } else {
            None
        }
    } else {
        None
    }
}

/// Round trip for inbound messages: decoding the canonical envelope of any
/// well-formed message gives back exactly that message.
#[verifier::rlimit(100)]
pub proof fn lemma_client_round_trip(m: ClientMessageView)
    requires
        crate::messages::wf_client_view(m),
    ensures
        spec_decode_client(spec_encode_client(m)) == Some(m),
{
    let pre = ("{\"type\":\"")@;
    match m {
        ClientMessageView::Join { player_id, player_name } => {
            let tag = ("Join")@;
            let litb = (",\"player_id\":\"")@;
            let litc = (",\"player_name\":\"")@;
            let close = ("}")@;
            reveal_strlit("Join");
            lemma_esc_clean(tag);
            let rest2 = litb + esc(player_id) + seq!['"'] + litc + esc(player_name) + seq!['"']
                + close;
            let rest1 = esc(tag) + seq!['"'] + rest2;
            assert(spec_encode_client(m) =~= pre + rest1);
            lemma_expect_concat(pre, rest1);
            lemma_parse_esc(tag, rest2);
            let rest3 = esc(player_id) + seq!['"'] + (litc + esc(player_name) + seq!['"'] + close);
            assert(rest2 =~= litb + rest3);
            lemma_expect_concat(litb, rest3);
            lemma_parse_esc(player_id, litc + esc(player_name) + seq!['"'] + close);
            let rest4 = esc(player_name) + seq!['"'] + close;
            assert(litc + esc(player_name) + seq!['"'] + close =~= litc + rest4);
            lemma_expect_concat(litc, rest4);
            lemma_parse_esc(player_name, close);
            assert(close =~= close + Seq::<char>::empty());
            lemma_expect_concat(close, Seq::<char>::empty());
        },
        ClientMessageView::UpdatePosition { x, y, z } => {
            let tag = ("UpdatePosition")@;
            let litx = (",\"x\":")@;
            let lity = (",\"y\":")@;
            let litz = (",\"z\":")@;
            let close = ("}")@;
            reveal_strlit("Join");
            reveal_strlit("UpdatePosition");
            reveal_strlit(",\"y\":");
            reveal_strlit(",\"z\":");
            reveal_strlit("}");
            assert(tag != ("Join")@);
            lemma_esc_clean(tag);
            let rest2 = litx + x + lity + y + litz + z + close;
            let rest1 = esc(tag) + seq!['"'] + rest2;
            assert(spec_encode_client(m) =~= pre + rest1);
            lemma_expect_concat(pre, rest1);
            lemma_parse_esc(tag, rest2);
            let restx = x + (lity + y + litz + z + close);
            assert(rest2 =~= litx + restx);
            lemma_expect_concat(litx, restx);
            assert((lity + y + litz + z + close)[0] == ',');
            lemma_take_num(x, lity + y + litz + z + close);
            let resty = y + (litz + z + close);
            assert(lity + y + litz + z + close =~= lity + resty);
            lemma_expect_concat(lity, resty);
            assert((litz + z + close)[0] == ',');
            lemma_take_num(y, litz + z + close);
            let restz = z + close;
            assert(litz + z + close =~= litz + restz);
            lemma_expect_concat(litz, restz);
            assert(close[0] == '}');
            assert(!is_num_char('}'));
            lemma_take_num(z, close);
            assert(close =~= close + Seq::<char>::empty());
            lemma_expect_concat(close, Seq::<char>::empty());
        },
        ClientMessageView::Leave => {
            let tag = ("Leave")@;
            let close = ("}")@;
            reveal_strlit("Join");
            reveal_strlit("UpdatePosition");
            reveal_strlit("Leave");
            assert(tag != ("Join")@);
            assert(tag != ("UpdatePosition")@);
            lemma_esc_clean(tag);
            let rest1 = esc(tag) + seq!['"'] + close;
            assert(spec_encode_client(m) =~= pre + rest1);
            lemma_expect_concat(pre, rest1);
            lemma_parse_esc(tag, close);
            assert(close =~= close + Seq::<char>::empty());
            lemma_expect_concat(close, Seq::<char>::empty());
        },
    }
}


/// The canonical object for one player inside a GameState payload.
pub open spec fn spec_encode_player(p: PlayerView) -> Seq<char> {
    ("{\"id\":\"")@ + esc(p.id) + seq!['"'] + (",\"name\":\"")@ + esc(p.name) + seq!['"']
        + (",\"x\":")@ + p.x + (",\"y\":")@ + p.y + (",\"z\":")@ + p.z + ("}")@
}

/// The canonical comma-separated player list.
pub open spec fn spec_encode_players(ps: Seq<PlayerView>) -> Seq<char>
    decreases ps.len(),
{
    if ps.len() == 0 {
        Seq::empty()
    } else if ps.len() == 1 {
        spec_encode_player(ps[0])
    } else {
        spec_encode_player(ps[0]) + seq![','] + spec_encode_players(ps.drop_first())
    }
}

pub proof fn lemma_encode_players_snoc(ps: Seq<PlayerView>, p: PlayerView)
    ensures
        spec_encode_players(ps.push(p)) == if ps.len() == 0 {
            spec_encode_player(p)
        } else {
            spec_encode_players(ps) + seq![','] + spec_encode_players(seq![p])
        },
    decreases ps.len(),
{
    if ps.len() == 0 {
        assert(ps.push(p).len() == 1);
        assert(ps.push(p)[0] == p);
    } else {
        assert(ps.push(p).drop_first() =~= ps.drop_first().push(p));
        lemma_encode_players_snoc(ps.drop_first(), p);
        assert(ps.push(p)[0] == ps[0]);
        if ps.len() == 1 {
            assert(spec_encode_players(ps.push(p)) =~= spec_encode_players(ps) + seq![',']
                + spec_encode_players(seq![p]));
        } else {
            assert(spec_encode_players(ps.push(p)) =~= spec_encode_players(ps) + seq![',']
                + spec_encode_players(seq![p]));
        }
    }
}

/// The canonical envelope of an outbound event.
pub open spec fn spec_encode_server(m: ServerMessageView) -> Seq<char> {
    match m {
        ServerMessageView::PlayerJoined { player_id, player_name, x, y, z } => ("{\"type\":\"")@
            + ("PlayerJoined")@ + seq!['"'] + (",\"player_id\":\"")@ + esc(player_id) + seq!['"']
            + (",\"player_name\":\"")@ + esc(player_name) + seq!['"'] + (",\"x\":")@ + x
            + (",\"y\":")@ + y + (",\"z\":")@ + z + ("}")@,
        ServerMessageView::PlayerLeft { player_id } => ("{\"type\":\"")@ + ("PlayerLeft")@
            + seq!['"'] + (",\"player_id\":\"")@ + esc(player_id) + seq!['"'] + ("}")@,
        ServerMessageView::PlayerMoved { player_id, x, y, z } => ("{\"type\":\"")@
            + ("PlayerMoved")@ + seq!['"'] + (",\"player_id\":\"")@ + esc(player_id) + seq!['"']
            + (",\"x\":")@ + x + (",\"y\":")@ + y + (",\"z\":")@ + z + ("}")@,
        ServerMessageView::GameState { players } => ("{\"type\":\"")@ + ("GameState")@
            + seq!['"'] + (",\"players\":[")@ + spec_encode_players(players) + ("]}")@,
        ServerMessageView::Error { message } => ("{\"type\":\"")@ + ("Error")@ + seq!['"']
            + (",\"message\":\"")@ + esc(message) + seq!['"'] + ("}")@,
    }
}

/// Appends the canonical object for one player.
fn encode_player_append(out: &mut String, p: &Player)
    ensures
        final(out)@ == old(out)@ + spec_encode_player(p.deep_view()),
{
    out.append("{\"id\":\"");
    escape_append(out, p.id.as_str());
    push_char(out, '"');
    out.append(",\"name\":\"");
    escape_append(out, p.name.as_str());
    push_char(out, '"');
    out.append(",\"x\":");
    out.append(p.x.text.as_str());
    out.append(",\"y\":");
    out.append(p.y.text.as_str());
    out.append(",\"z\":");
    out.append(p.z.text.as_str());
    out.append("}");
    proof {
        assert(out@ =~= old(out)@ + spec_encode_player(p.deep_view()));
    }
}

/// Encodes an outbound event to its canonical envelope.  Encoding cannot
/// fail for any event value.
pub fn encode_server_message(m: &ServerMessage) -> (r: String)
    ensures
        r@ == spec_encode_server(m.deep_view()),
{
    let mut out = String::new();
    out.append("{\"type\":\"");
    match m {
        ServerMessage::PlayerJoined { player_id, player_name, x, y, z } => {
            out.append("PlayerJoined");
            push_char(&mut out, '"');
            out.append(",\"player_id\":\"");
            escape_append(&mut out, player_id.as_str());
            push_char(&mut out, '"');
            out.append(",\"player_name\":\"");
            escape_append(&mut out, player_name.as_str());
            push_char(&mut out, '"');
            out.append(",\"x\":");
            out.append(x.text.as_str());
            out.append(",\"y\":");
            out.append(y.text.as_str());
            out.append(",\"z\":");
            out.append(z.text.as_str());
            out.append("}");
            proof {
                assert(out@ =~= spec_encode_server(m.deep_view()));
            }
        },
        ServerMessage::PlayerLeft { player_id } => {
            out.append("PlayerLeft");
            push_char(&mut out, '"');
            out.append(",\"player_id\":\"");
            escape_append(&mut out, player_id.as_str());
            push_char(&mut out, '"');
            out.append("}");
            proof {
                assert(out@ =~= spec_encode_server(m.deep_view()));
            }
        },
        ServerMessage::PlayerMoved { player_id, x, y, z } => {
            out.append("PlayerMoved");
            push_char(&mut out, '"');
            out.append(",\"player_id\":\"");
            escape_append(&mut out, player_id.as_str());
            push_char(&mut out, '"');
            out.append(",\"x\":");
            out.append(x.text.as_str());
            out.append(",\"y\":");
            out.append(y.text.as_str());
            out.append(",\"z\":");
            out.append(z.text.as_str());
            out.append("}");
            proof {
                assert(out@ =~= spec_encode_server(m.deep_view()));
            }
        },
        ServerMessage::GameState { players } => {
            out.append("GameState");
            push_char(&mut out, '"');
            out.append(",\"players\":[");
            let ghost base = out@;
            let mut i: usize = 0;
            while i < players.len()
                invariant
                    0 <= i <= players@.len(),
                    out@ == base + spec_encode_players(players.deep_view().take(i as int)),
                decreases players@.len() - i,
            {
                if i > 0 {
                    push_char(&mut out, ',');
                }
                encode_player_append(&mut out, &players[i]);
                proof {
                    let pv = players.deep_view();
                    assert(pv.take(i + 1) =~= pv.take(i as int).push(pv[i as int]));
                    lemma_encode_players_snoc(pv.take(i as int), pv[i as int]);
                    assert(spec_encode_players(seq![pv[i as int]]) == spec_encode_player(
                        pv[i as int],
                    ));
                    assert(players[i as int].deep_view() == pv[i as int]);
                    assert(out@ =~= base + spec_encode_players(pv.take(i + 1)));
                }
                i += 1;
            }
            out.append("]}");
            proof {
                assert(players.deep_view().take(players@.len() as int) =~= players.deep_view());
                assert(out@ =~= spec_encode_server(m.deep_view()));
            }
        },
        ServerMessage::Error { message } => {
            out.append("Error");
            push_char(&mut out, '"');
            out.append(",\"message\":\"");
            escape_append(&mut out, message.as_str());
            push_char(&mut out, '"');
            out.append("}");
            proof {
                assert(out@ =~= spec_encode_server(m.deep_view()));
            }
        },
    }
    out
}


/// One player object inside a GameState payload.
pub open spec fn spec_parse_player(s: Seq<char>) -> Option<(PlayerView, Seq<char>)> {
    match spec_expect(s, ("{\"id\":\"")@) {
        None => None,
        Some(r1) => match spec_parse_str(r1) {
            None => None,
            Some(idr) => match spec_expect(idr.1, (",\"name\":\"")@) {
                None => None,
                Some(r2) => match spec_parse_str(r2) {
                    None => None,
                    Some(namer) => match spec_expect(namer.1, (",\"x\":")@) {
                        None => None,
                        Some(r3) => {
                            let xt = spec_take_num(r3);
                            if xt.0.len() == 0 {
                                None
                            } else {
                                match spec_expect(xt.1, (",\"y\":")@) {
                                    None => None,
                                    Some(r4) => {
                                        let yt = spec_take_num(r4);
                                        if yt.0.len() == 0 {
                                            None
                                        } else {
                                            match spec_expect(yt.1, (",\"z\":")@) {
                                                None => None,
                                                Some(r5) => {
                                                    let zt = spec_take_num(r5);
                                                    if zt.0.len() == 0 {
                                                        None
                                                    } else {
                                                        match spec_expect(zt.1, ("}")@) {
                                                            None => None,
                                                            Some(r6) => Some(
                                                                (
                                                                    PlayerView {
                                                                        id: idr.0,
                                                                        name: namer.0,
                                                                        x: xt.0,
                                                                        y: yt.0,
                                                                        z: zt.0,
                                                                    },
                                                                    r6,
                                                                ),
                                                            ),
                                                        }
                                                    }
                                                },
                                            }
                                        }
                                    },
                                }
                            }
                        },
                    },
                },
            },
        },
    }
}

/// A non-empty comma-separated run of player objects.
pub open spec fn spec_parse_players(s: Seq<char>) -> Option<(Seq<PlayerView>, Seq<char>)>
    decreases s.len(),
{
    match spec_parse_player(s) {
        None => None,
        Some(pr) => {
            if pr.1.len() > 0 && pr.1[0] == ',' && pr.1.len() <= s.len() {
                match spec_parse_players(pr.1.drop_first()) {
                    None => None,
                    Some(psr) => Some((seq![pr.0] + psr.0, psr.1)),
                }
            } else {
                Some((seq![pr.0], pr.1))
            }
        },
    }
}

/// Decodes an outbound envelope; `None` for anything malformed or
/// unrecognized.
pub open spec fn spec_decode_server(s: Seq<char>) -> Option<ServerMessageView> {
    match spec_expect(s, ("{\"type\":\"")@) {
        None => None,
        Some(r1) => match spec_parse_str(r1) {
            None => None,
            Some(tagr) => if tagr.0 == ("PlayerJoined")@ {
                spec_decode_player_joined(tagr.1)
            } else if tagr.0 == ("PlayerLeft")@ {
                spec_decode_player_left(tagr.1)
            } else if tagr.0 == ("PlayerMoved")@ {
                spec_decode_player_moved(tagr.1)
            } else if tagr.0 == ("GameState")@ {
                spec_decode_game_state(tagr.1)
            } else if tagr.0 == ("Error")@ {
                spec_decode_error(tagr.1)
            } else {
                None
            },
        },
    }
}

/// The payload of a PlayerJoined envelope, after its discriminant.
pub open spec fn spec_decode_player_joined(s: Seq<char>) -> Option<ServerMessageView> {
    match spec_expect(s, (",\"player_id\":\"")@) {
        None => None,
        Some(r1) => match spec_parse_str(r1) {
            None => None,
            Some(idr) => match spec_expect(idr.1, (",\"player_name\":\"")@) {
                None => None,
                Some(r2) => match spec_parse_str(r2) {
                    None => None,
                    Some(namer) => match spec_decode_nums3(namer.1) {
                        None => None,
                        Some(xyzr) => spec_decode_end(
                            xyzr.3,
                            ServerMessageView::PlayerJoined {
                                player_id: idr.0,
                                player_name: namer.0,
                                x: xyzr.0,
                                y: xyzr.1,
                                z: xyzr.2,
                            },
                        ),
                    },
                },
            },
        },
    }
}

/// Three comma-keyed coordinates `,"x":.. ,"y":.. ,"z":..` and the
/// remainder.
pub open spec fn spec_decode_nums3(s: Seq<char>) -> Option<
    (Seq<char>, Seq<char>, Seq<char>, Seq<char>),
> {
    match spec_expect(s, (",\"x\":")@) {
        None => None,
        Some(r1) => {
            let xt = spec_take_num(r1);
            if xt.0.len() == 0 {
                None
            } else {
                match spec_expect(xt.1, (",\"y\":")@) {
                    None => None,
                    Some(r2) => {
                        let yt = spec_take_num(r2);
                        if yt.0.len() == 0 {
                            None
                        } else {
                            match spec_expect(yt.1, (",\"z\":")@) {
                                None => None,
                                Some(r3) => {
                                    let zt = spec_take_num(r3);
                                    if zt.0.len() == 0 {
                                        None
                                    } else {
                                        Some((xt.0, yt.0, zt.0, zt.1))
                                    }
                                },
                            }
                        }
                    },
                }
            }
        },
    }
}

/// The payload of a PlayerLeft envelope, after its discriminant.
pub open spec fn spec_decode_player_left(s: Seq<char>) -> Option<ServerMessageView> {
    match spec_expect(s, (",\"player_id\":\"")@) {
        None => None,
        Some(r1) => match spec_parse_str(r1) {
            None => None,
            Some(idr) => spec_decode_end(
                idr.1,
                ServerMessageView::PlayerLeft { player_id: idr.0 },
            ),
        },
    }
}

/// The payload of a PlayerMoved envelope, after its discriminant.
pub open spec fn spec_decode_player_moved(s: Seq<char>) -> Option<ServerMessageView> {
    match spec_expect(s, (",\"player_id\":\"")@) {
        None => None,
        Some(r1) => match spec_parse_str(r1) {
            None => None,
            Some(idr) => match spec_decode_nums3(idr.1) {
                None => None,
                Some(xyzr) => spec_decode_end(
                    xyzr.3,
                    ServerMessageView::PlayerMoved {
                        player_id: idr.0,
                        x: xyzr.0,
                        y: xyzr.1,
                        z: xyzr.2,
                    },
                ),
            },
        },
    }
}

/// The payload of a GameState envelope, after its discriminant.
pub open spec fn spec_decode_game_state(s: Seq<char>) -> Option<ServerMessageView> {
    match spec_expect(s, (",\"players\":[")@) {
        None => None,
        Some(r1) => match spec_expect(r1, ("]}")@) {
            Some(r2) => if r2.len() == 0 {
                Some(ServerMessageView::GameState { players: Seq::empty() })
            } else {
                None
            },
            None => match spec_parse_players(r1) {
                None => None,
                Some(psr) => match spec_expect(psr.1, ("]}")@) {
                    None => None,
                    Some(r3) => if r3.len() == 0 {
                        Some(ServerMessageView::GameState { players: psr.0 })
                    } else {
                        None
                    },
                },
            },
        },
    }
}

/// The payload of an Error envelope, after its discriminant.
pub open spec fn spec_decode_error(s: Seq<char>) -> Option<ServerMessageView> {
    match spec_expect(s, (",\"message\":\"")@) {
        None => None,
        Some(r1) => match spec_parse_str(r1) {
            None => None,
            Some(msgr) => spec_decode_end(
                msgr.1,
                ServerMessageView::Error { message: msgr.0 },
            ),
        },
    }
}


/// Reads `,"x":<num>,"y":<num>,"z":<num>` starting at `i`.
fn parse_nums3_at(s: &str, i: usize, n: usize) -> (r: Option<(Coord, Coord, Coord, usize)>)
    requires
        i <= n,
        n == s@.len(),
    ensures
        match r {
            Some(q) => {
                &&& i <= q.3 <= n
                &&& q.0.wf() && q.1.wf() && q.2.wf()
                &&& spec_decode_nums3(s@.skip(i as int)) == Some(
                    (q.0@, q.1@, q.2@, s@.skip(q.3 as int)),
                )
            },
            None => spec_decode_nums3(s@.skip(i as int)) is None,
        },
{
    let i = match expect_lit(s, i, n, ",\"x\":") {
        Some(i) => i,
        None => {
            return None;
        },
    };
    let (x, i) = match parse_num_at(s, i, n) {
        Some(ti) => ti,
        None => {
            return None;
        },
    };
    let i = match expect_lit(s, i, n, ",\"y\":") {
        Some(i) => i,
        None => {
            return None;
        },
    };
    let (y, i) = match parse_num_at(s, i, n) {
        Some(ti) => ti,
        None => {
            return None;
        },
    };
    let i = match expect_lit(s, i, n, ",\"z\":") {
        Some(i) => i,
        None => {
            return None;
        },
    };
    let (z, i) = match parse_num_at(s, i, n) {
        Some(ti) => ti,
        None => {
            return None;
        },
    };
    Some((Coord { text: x }, Coord { text: y }, Coord { text: z }, i))
}

/// Reads one player object starting at `i`.
fn parse_player_at(s: &str, i: usize, n: usize) -> (r: Option<(Player, usize)>)
    requires
        i <= n,
        n == s@.len(),
    ensures
        match r {
            Some(pj) => {
                &&& i <= pj.1 <= n
                &&& pj.0.wf()
                &&& spec_parse_player(s@.skip(i as int)) == Some(
                    (pj.0.deep_view(), s@.skip(pj.1 as int)),
                )
            },
            None => spec_parse_player(s@.skip(i as int)) is None,
        },
{
    let i = match expect_lit(s, i, n, "{\"id\":\"") {
        Some(i) => i,
        None => {
            return None;
        },
    };
    let (id, i) = match parse_str_at(s, i, n) {
        Some(ti) => ti,
        None => {
            return None;
        },
    };
    let i = match expect_lit(s, i, n, ",\"name\":\"") {
        Some(i) => i,
        None => {
            return None;
        },
    };
    let (name, i) = match parse_str_at(s, i, n) {
        Some(ti) => ti,
        None => {
            return None;
        },
    };
    let i = match expect_lit(s, i, n, ",\"x\":") {
        Some(i) => i,
        None => {
            return None;
        },
    };
    let (x, i) = match parse_num_at(s, i, n) {
        Some(ti) => ti,
        None => {
            return None;
        },
    };
    let i = match expect_lit(s, i, n, ",\"y\":") {
        Some(i) => i,
        None => {
            return None;
        },
    };
    let (y, i) = match parse_num_at(s, i, n) {
        Some(ti) => ti,
        None => {
            return None;
        },
    };
    let i = match expect_lit(s, i, n, ",\"z\":") {
        Some(i) => i,
        None => {
            return None;
        },
    };
    let (z, i) = match parse_num_at(s, i, n) {
        Some(ti) => ti,
        None => {
            return None;
        },
    };
    let i = match expect_lit(s, i, n, "}") {
        Some(i) => i,
        None => {
            return None;
        },
    };
    let p = Player {
        id,
        name,
        x: Coord { text: x },
        y: Coord { text: y },
        z: Coord { text: z },
    };
    Some((p, i))
}

/// Reads a non-empty comma-separated run of player objects starting at `i`.
fn parse_players_at(s: &str, i: usize, n: usize) -> (r: Option<(Vec<Player>, usize)>)
    requires
        i <= n,
        n == s@.len(),
    ensures
        match r {
            Some(vj) => {
                &&& i <= vj.1 <= n
                &&& forall|k: int|
                    0 <= k < vj.0@.len() ==> crate::messages::wf_player_view(
                        #[trigger] vj.0.deep_view()[k],
                    )
                &&& spec_parse_players(s@.skip(i as int)) == Some(
                    (vj.0.deep_view(), s@.skip(vj.1 as int)),
                )
            },
            None => spec_parse_players(s@.skip(i as int)) is None,
        },
    decreases n - i,
{
    let (p, j) = match parse_player_at(s, i, n) {
        Some(pj) => pj,
        None => {
            return None;
        },
    };
    let more = if j < n {
        let c = s.get_char(j);
        proof {
            assert(s@.skip(j as int)[0] == s@[j as int]);
        }
        c == ','
    } else {
        proof {
            assert(s@.skip(j as int).len() == 0);
        }
        false
    };
    proof {
        assert(s@.skip(j as int).len() <= s@.skip(i as int).len());
    }
    if more {
        proof {
            assert(s@.skip(j as int).drop_first() =~= s@.skip(j + 1));
        }
        let (mut ps, j2) = match parse_players_at(s, j + 1, n) {
            Some(vj) => vj,
            None => {
                return None;
            },
        };
        ps.insert(0, p);
        proof {
            assert(ps.deep_view() =~= seq![ps[0].deep_view()] + ps.deep_view().drop_first());
            assert(spec_parse_players(s@.skip(i as int)) == Some(
                (ps.deep_view(), s@.skip(j2 as int)),
            ));
        }
        Some((ps, j2))
    } else {
        let mut ps: Vec<Player> = Vec::new();
        ps.push(p);
        proof {
            assert(ps.deep_view() =~= seq![p.deep_view()]);
        }
        Some((ps, j))
    }
}

/// Decodes one outbound text frame.
pub fn decode_server_message(s: &str) -> (r: Option<ServerMessage>)
    ensures
        r.deep_view() == spec_decode_server(s@),
        match r {
            Some(m) => m.wf(),
            None => true,
        },
{
    let n = s.unicode_len();
    proof {
        assert(s@.skip(0) =~= s@);
    }
    let i = match expect_lit(s, 0, n, "{\"type\":\"") {
        Some(i) => i,
        None => {
            return None;
        },
    };
    let (tag, i) = match parse_str_at(s, i, n) {
        Some(ti) => ti,
        None => {
            return None;
        },
    };
    if str_is(&tag, "PlayerJoined") {
        let i = match expect_lit(s, i, n, ",\"player_id\":\"") {
            Some(i) => i,
            None => {
                return None;
            },
        };
        let (player_id, i) = match parse_str_at(s, i, n) {
            Some(ti) => ti,
            None => {
                return None;
            },
        };
        let i = match expect_lit(s, i, n, ",\"player_name\":\"") {
            Some(i) => i,
            None => {
                return None;
            },
        };
        let (player_name, i) = match parse_str_at(s, i, n) {
            Some(ti) => ti,
            None => {
                return None;
            },
        };
        let (x, y, z, i) = match parse_nums3_at(s, i, n) {
            Some(q) => q,
            None => {
                return None;
            },
        };
        if decode_end(s, i, n) {
            Some(ServerMessage::PlayerJoined { player_id, player_name, x, y, z })
        } else {
            None
        }
    } else if str_is(&tag, "PlayerLeft") {
        let i = match expect_lit(s, i, n, ",\"player_id\":\"") {
            Some(i) => i,
            None => {
                return None;
            },
        };
        let (player_id, i) = match parse_str_at(s, i, n) {
            Some(ti) => ti,
            None => {
                return None;
            },
        };
        if decode_end(s, i, n) {
            Some(ServerMessage::PlayerLeft { player_id })
        } else {
            None
        }
    } else if str_is(&tag, "PlayerMoved") {
        let i = match expect_lit(s, i, n, ",\"player_id\":\"") {
            Some(i) => i,
            None => {
                return None;
            },
        };
        let (player_id, i) = match parse_str_at(s, i, n) {
            Some(ti) => ti,
            None => {
                return None;
            },
        };
        let (x, y, z, i) = match parse_nums3_at(s, i, n) {
            Some(q) => q,
            None => {
                return None;
            },
        };
        if decode_end(s, i, n) {
            Some(ServerMessage::PlayerMoved { player_id, x, y, z })
        } else {
            None
        }
    } else if str_is(&tag, "GameState") {
        let i = match expect_lit(s, i, n, ",\"players\":[") {
            Some(i) => i,
            None => {
                return None;
            },
        };
        match expect_lit(s, i, n, "]}") {
            Some(j) => {
                if j == n {
                    Some(ServerMessage::GameState { players: Vec::new() })
                } else {
                    None
                }
            },
            None => {
                let (players, i) = match parse_players_at(s, i, n) {
                    Some(vj) => vj,
                    None => {
                        return None;
                    },
                };
                match expect_lit(s, i, n, "]}") {
                    Some(j) => {
                        if j == n {
                            Some(ServerMessage::GameState { players })
                        } else {
                            None
                        }
                    },
                    None => None,
                }
            },
        }
    } else if str_is(&tag, "Error") {
        let i = match expect_lit(s, i, n, ",\"message\":\"") {
            Some(i) => i,
            None => {
                return None;
            },
        };
        let (message, i) = match parse_str_at(s, i, n) {
            Some(ti) => ti,
            None => {
                return None;
            },
        };
        if decode_end(s, i, n) {
            Some(ServerMessage::Error { message })
        } else {
            None
        }
    } else {
        None
    }
}


/// Three spliced coordinates parse back out whole when what follows cannot
/// extend a number.
proof fn lemma_decode_nums3(x: Seq<char>, y: Seq<char>, z: Seq<char>, rest: Seq<char>)
    requires
        wf_num_text(x),
        wf_num_text(y),
        wf_num_text(z),
        rest.len() > 0,
        !is_num_char(rest[0]),
    ensures
        spec_decode_nums3(
            (",\"x\":")@ + x + (",\"y\":")@ + y + (",\"z\":")@ + z + rest,
        ) == Some((x, y, z, rest)),
{
    reveal_strlit(",\"y\":");
    reveal_strlit(",\"z\":");
    let litx = (",\"x\":")@;
    let lity = (",\"y\":")@;
    let litz = (",\"z\":")@;
    let s = litx + x + lity + y + litz + z + rest;
    let restx = x + (lity + y + litz + z + rest);
    assert(s =~= litx + restx);
    lemma_expect_concat(litx, restx);
    assert((lity + y + litz + z + rest)[0] == ',');
    lemma_take_num(x, lity + y + litz + z + rest);
    let resty = y + (litz + z + rest);
    assert(lity + y + litz + z + rest =~= lity + resty);
    lemma_expect_concat(lity, resty);
    assert((litz + z + rest)[0] == ',');
    lemma_take_num(y, litz + z + rest);
    let restz = z + rest;
    assert(litz + z + rest =~= litz + restz);
    lemma_expect_concat(litz, restz);
    lemma_take_num(z, rest);
}

/// One encoded player object parses back to exactly its record, leaving the
/// remainder untouched.
proof fn lemma_parse_player_enc(p: PlayerView, rest: Seq<char>)
    requires
        crate::messages::wf_player_view(p),
    ensures
        spec_parse_player(spec_encode_player(p) + rest) == Some((p, rest)),
{
    reveal_strlit(",\"name\":\"");
    reveal_strlit(",\"y\":");
    reveal_strlit(",\"z\":");
    reveal_strlit("}");
    let litid = ("{\"id\":\"")@;
    let litname = (",\"name\":\"")@;
    let litx = (",\"x\":")@;
    let lity = (",\"y\":")@;
    let litz = (",\"z\":")@;
    let close = ("}")@;
    let s = spec_encode_player(p) + rest;
    let rest1 = esc(p.id) + seq!['"'] + (litname + esc(p.name) + seq!['"'] + litx + p.x + lity
        + p.y + litz + p.z + close + rest);
    assert(s =~= litid + rest1);
    lemma_expect_concat(litid, rest1);
    lemma_parse_esc(
        p.id,
        litname + esc(p.name) + seq!['"'] + litx + p.x + lity + p.y + litz + p.z + close + rest,
    );
    let rest2 = esc(p.name) + seq!['"'] + (litx + p.x + lity + p.y + litz + p.z + close + rest);
    assert(litname + esc(p.name) + seq!['"'] + litx + p.x + lity + p.y + litz + p.z + close + rest
        =~= litname + rest2);
    lemma_expect_concat(litname, rest2);
    lemma_parse_esc(p.name, litx + p.x + lity + p.y + litz + p.z + close + rest);
    let restx = p.x + (lity + p.y + litz + p.z + close + rest);
    assert(litx + p.x + lity + p.y + litz + p.z + close + rest =~= litx + restx);
    lemma_expect_concat(litx, restx);
    assert((lity + p.y + litz + p.z + close + rest)[0] == ',');
    lemma_take_num(p.x, lity + p.y + litz + p.z + close + rest);
    let resty = p.y + (litz + p.z + close + rest);
    assert(lity + p.y + litz + p.z + close + rest =~= lity + resty);
    lemma_expect_concat(lity, resty);
    assert((litz + p.z + close + rest)[0] == ',');
    lemma_take_num(p.y, litz + p.z + close + rest);
    let restz = p.z + (close + rest);
    assert(litz + p.z + close + rest =~= litz + restz);
    lemma_expect_concat(litz, restz);
    assert((close + rest)[0] == '}');
    lemma_take_num(p.z, close + rest);
    assert(close + rest =~= close + rest);
    lemma_expect_concat(close, rest);
}

/// An encoded non-empty player list parses back to exactly those records.
proof fn lemma_parse_players_enc(ps: Seq<PlayerView>, rest: Seq<char>)
    requires
        ps.len() >= 1,
        forall|k: int| 0 <= k < ps.len() ==> crate::messages::wf_player_view(#[trigger] ps[k]),
        rest.len() > 0,
        rest[0] != ',',
    ensures
        spec_parse_players(spec_encode_players(ps) + rest) == Some((ps, rest)),
    decreases ps.len(),
{
    if ps.len() == 1 {
        lemma_parse_player_enc(ps[0], rest);
        assert(seq![ps[0]] =~= ps);
    } else {
        let tail = ps.drop_first();
        let enc_tail_rest = spec_encode_players(tail) + rest;
        let r = seq![','] + enc_tail_rest;
        assert(spec_encode_players(ps) + rest =~= spec_encode_player(ps[0]) + r);
        lemma_parse_player_enc(ps[0], r);
        assert(r[0] == ',');
        assert(r.drop_first() =~= enc_tail_rest);
        assert forall|k: int| 0 <= k < tail.len() implies crate::messages::wf_player_view(
            #[trigger] tail[k],
        ) by {
            assert(tail[k] == ps[k + 1]);
        }
        lemma_parse_players_enc(tail, rest);
        assert(seq![ps[0]] + tail =~= ps);
    }
}

proof fn lemma_joined_payload(
    player_id: Seq<char>,
    player_name: Seq<char>,
    x: Seq<char>,
    y: Seq<char>,
    z: Seq<char>,
)
    requires
        wf_num_text(x),
        wf_num_text(y),
        wf_num_text(z),
    ensures
        ({
            let litid = (",\"player_id\":\"")@;
            let litname = (",\"player_name\":\"")@;
            let nums = (",\"x\":")@ + x + (",\"y\":")@ + y + (",\"z\":")@ + z;
            spec_decode_player_joined(
                litid + esc(player_id) + seq!['"'] + litname + esc(player_name) + seq!['"'] + nums
                    + ("}")@,
            ) == Some(ServerMessageView::PlayerJoined { player_id, player_name, x, y, z })
        }),
{
    reveal_strlit("}");
    let litid = (",\"player_id\":\"")@;
    let litname = (",\"player_name\":\"")@;
    let litx = (",\"x\":")@;
    let lity = (",\"y\":")@;
    let litz = (",\"z\":")@;
    let close = ("}")@;
    let nums = litx + x + lity + y + litz + z;
    let s = litid + esc(player_id) + seq!['"'] + litname + esc(player_name) + seq!['"'] + nums
        + close;
    let rest3 = esc(player_id) + seq!['"'] + (litname + esc(player_name) + seq!['"'] + nums
        + close);
    assert(s =~= litid + rest3);
    lemma_expect_concat(litid, rest3);
    lemma_parse_esc(player_id, litname + esc(player_name) + seq!['"'] + nums + close);
    let rest4 = esc(player_name) + seq!['"'] + (nums + close);
    assert(litname + esc(player_name) + seq!['"'] + nums + close =~= litname + rest4);
    lemma_expect_concat(litname, rest4);
    lemma_parse_esc(player_name, nums + close);
    assert(nums + close =~= litx + x + lity + y + litz + z + close);
    lemma_decode_nums3(x, y, z, close);
    assert(close =~= close + Seq::<char>::empty());
    lemma_expect_concat(close, Seq::<char>::empty());
}

/// The five outbound discriminants are pairwise distinct.
proof fn lemma_tags_distinct()
    ensures
        ("PlayerLeft")@ != ("PlayerJoined")@,
        ("PlayerMoved")@ != ("PlayerJoined")@,
        ("PlayerMoved")@ != ("PlayerLeft")@,
        ("GameState")@ != ("PlayerJoined")@,
        ("GameState")@ != ("PlayerLeft")@,
        ("GameState")@ != ("PlayerMoved")@,
        ("Error")@ != ("PlayerJoined")@,
        ("Error")@ != ("PlayerLeft")@,
        ("Error")@ != ("PlayerMoved")@,
        ("Error")@ != ("GameState")@,
{
    reveal_strlit("PlayerJoined");
    reveal_strlit("PlayerLeft");
    reveal_strlit("PlayerMoved");
    reveal_strlit("GameState");
    reveal_strlit("Error");
    assert(("PlayerJoined")@.len() == 12);
    assert(("PlayerLeft")@.len() == 10);
    assert(("PlayerMoved")@.len() == 11);
    assert(("GameState")@.len() == 9);
    assert(("Error")@.len() == 5);
}

#[verifier::rlimit(100)]
proof fn lemma_rt_server_joined(
    player_id: Seq<char>,
    player_name: Seq<char>,
    x: Seq<char>,
    y: Seq<char>,
    z: Seq<char>,
)
    requires
        wf_num_text(x),
        wf_num_text(y),
        wf_num_text(z),
    ensures
        ({
            let m = ServerMessageView::PlayerJoined { player_id, player_name, x, y, z };
            spec_decode_server(spec_encode_server(m)) == Some(m)
        }),
{
    let m = ServerMessageView::PlayerJoined { player_id, player_name, x, y, z };
    let pre = ("{\"type\":\"")@;
    let tag = ("PlayerJoined")@;
    let litid = (",\"player_id\":\"")@;
    let litname = (",\"player_name\":\"")@;
    let nums = (",\"x\":")@ + x + (",\"y\":")@ + y + (",\"z\":")@ + z;
    let close = ("}")@;
    reveal_strlit("PlayerJoined");
    lemma_esc_clean(tag);
    let rest2 = litid + esc(player_id) + seq!['"'] + litname + esc(player_name) + seq!['"'] + nums
        + close;
    let rest1 = esc(tag) + seq!['"'] + rest2;
    assert(spec_encode_server(m) =~= pre + rest1);
    lemma_expect_concat(pre, rest1);
    lemma_parse_esc(tag, rest2);
    lemma_joined_payload(player_id, player_name, x, y, z);
}

proof fn lemma_left_payload(player_id: Seq<char>)
    ensures
        spec_decode_player_left(
            (",\"player_id\":\"")@ + esc(player_id) + seq!['"'] + ("}")@,
        ) == Some(ServerMessageView::PlayerLeft { player_id }),
{
    let litid = (",\"player_id\":\"")@;
    let close = ("}")@;
    let rest3 = esc(player_id) + seq!['"'] + close;
    assert(litid + esc(player_id) + seq!['"'] + close =~= litid + rest3);
    lemma_expect_concat(litid, rest3);
    lemma_parse_esc(player_id, close);
    assert(close =~= close + Seq::<char>::empty());
    lemma_expect_concat(close, Seq::<char>::empty());
}

#[verifier::rlimit(100)]
proof fn lemma_rt_server_left(player_id: Seq<char>)
    ensures
        ({
            let m = ServerMessageView::PlayerLeft { player_id };
            spec_decode_server(spec_encode_server(m)) == Some(m)
        }),
{
    let m = ServerMessageView::PlayerLeft { player_id };
    let pre = ("{\"type\":\"")@;
    let tag = ("PlayerLeft")@;
    let litid = (",\"player_id\":\"")@;
    let close = ("}")@;
    reveal_strlit("PlayerLeft");
    lemma_tags_distinct();
    lemma_esc_clean(tag);
    let rest2 = litid + esc(player_id) + seq!['"'] + close;
    let rest1 = esc(tag) + seq!['"'] + rest2;
    assert(spec_encode_server(m) =~= pre + rest1);
    lemma_expect_concat(pre, rest1);
    lemma_parse_esc(tag, rest2);
    lemma_left_payload(player_id);
}

proof fn lemma_moved_payload(player_id: Seq<char>, x: Seq<char>, y: Seq<char>, z: Seq<char>)
    requires
        wf_num_text(x),
        wf_num_text(y),
        wf_num_text(z),
    ensures
        ({
            let litid = (",\"player_id\":\"")@;
            let nums = (",\"x\":")@ + x + (",\"y\":")@ + y + (",\"z\":")@ + z;
            spec_decode_player_moved(litid + esc(player_id) + seq!['"'] + nums + ("}")@) == Some(
                ServerMessageView::PlayerMoved { player_id, x, y, z },
            )
        }),
{
    reveal_strlit("}");
    let litid = (",\"player_id\":\"")@;
    let litx = (",\"x\":")@;
    let lity = (",\"y\":")@;
    let litz = (",\"z\":")@;
    let close = ("}")@;
    let nums = litx + x + lity + y + litz + z;
    let rest3 = esc(player_id) + seq!['"'] + (nums + close);
    assert(litid + esc(player_id) + seq!['"'] + nums + close =~= litid + rest3);
    lemma_expect_concat(litid, rest3);
    lemma_parse_esc(player_id, nums + close);
    assert(nums + close =~= litx + x + lity + y + litz + z + close);
    lemma_decode_nums3(x, y, z, close);
    assert(close =~= close + Seq::<char>::empty());
    lemma_expect_concat(close, Seq::<char>::empty());
}

#[verifier::rlimit(100)]
#[verifier::spinoff_prover]
proof fn lemma_rt_server_moved(player_id: Seq<char>, x: Seq<char>, y: Seq<char>, z: Seq<char>)
    requires
        wf_num_text(x),
        wf_num_text(y),
        wf_num_text(z),
    ensures
        ({
            let m = ServerMessageView::PlayerMoved { player_id, x, y, z };
            spec_decode_server(spec_encode_server(m)) == Some(m)
        }),
{
    let m = ServerMessageView::PlayerMoved { player_id, x, y, z };
    let pre = ("{\"type\":\"")@;
    let tag = ("PlayerMoved")@;
    let litid = (",\"player_id\":\"")@;
    let nums = (",\"x\":")@ + x + (",\"y\":")@ + y + (",\"z\":")@ + z;
    let close = ("}")@;
    reveal_strlit("PlayerMoved");
    lemma_tags_distinct();
    lemma_esc_clean(tag);
    let rest2 = litid + esc(player_id) + seq!['"'] + nums + close;
    let rest1 = esc(tag) + seq!['"'] + rest2;
    assert(spec_encode_server(m) =~= pre + rest1);
    lemma_expect_concat(pre, rest1);
    lemma_parse_esc(tag, rest2);
    lemma_moved_payload(player_id, x, y, z);
}

proof fn lemma_game_state_payload(players: Seq<PlayerView>)
    requires
        forall|k: int|
            0 <= k < players.len() ==> crate::messages::wf_player_view(#[trigger] players[k]),
    ensures
        spec_decode_game_state(
            (",\"players\":[")@ + spec_encode_players(players) + ("]}")@,
        ) == Some(ServerMessageView::GameState { players }),
{
    reveal_strlit("]}");
    reveal_strlit("{\"id\":\"");
    let litp = (",\"players\":[")@;
    let close = ("]}")@;
    let body = spec_encode_players(players) + close;
    assert(litp + spec_encode_players(players) + close =~= litp + body);
    lemma_expect_concat(litp, body);
    if players.len() == 0 {
        assert(body =~= close + Seq::<char>::empty());
        lemma_expect_concat(close, Seq::<char>::empty());
    } else {
        assert(spec_encode_player(players[0])[0] == '{');
        assert(body[0] == '{');
        assert(spec_expect(body, close) is None) by {
            if close.len() <= body.len() && body.take(close.len() as int) == close {
                assert(body.take(close.len() as int)[0] == body[0]);
                assert(close[0] == ']');
            }
        }
        assert(close[0] == ']');
        lemma_parse_players_enc(players, close);
        assert(close =~= close + Seq::<char>::empty());
        lemma_expect_concat(close, Seq::<char>::empty());
    }
}

#[verifier::rlimit(100)]
proof fn lemma_rt_server_game_state(players: Seq<PlayerView>)
    requires
        forall|k: int|
            0 <= k < players.len() ==> crate::messages::wf_player_view(#[trigger] players[k]),
    ensures
        ({
            let m = ServerMessageView::GameState { players };
            spec_decode_server(spec_encode_server(m)) == Some(m)
        }),
{
    let m = ServerMessageView::GameState { players };
    let pre = ("{\"type\":\"")@;
    let tag = ("GameState")@;
    let litp = (",\"players\":[")@;
    let close = ("]}")@;
    reveal_strlit("GameState");
    lemma_tags_distinct();
    lemma_esc_clean(tag);
    let rest2 = litp + spec_encode_players(players) + close;
    let rest1 = esc(tag) + seq!['"'] + rest2;
    assert(spec_encode_server(m) =~= pre + rest1);
    lemma_expect_concat(pre, rest1);
    lemma_parse_esc(tag, rest2);
    lemma_game_state_payload(players);
}

proof fn lemma_error_payload(message: Seq<char>)
    ensures
        spec_decode_error(
            (",\"message\":\"")@ + esc(message) + seq!['"'] + ("}")@,
        ) == Some(ServerMessageView::Error { message }),
{
    let litmsg = (",\"message\":\"")@;
    let close = ("}")@;
    let rest3 = esc(message) + seq!['"'] + close;
    assert(litmsg + esc(message) + seq!['"'] + close =~= litmsg + rest3);
    lemma_expect_concat(litmsg, rest3);
    lemma_parse_esc(message, close);
    assert(close =~= close + Seq::<char>::empty());
    lemma_expect_concat(close, Seq::<char>::empty());
}

#[verifier::rlimit(100)]
proof fn lemma_rt_server_error(message: Seq<char>)
    ensures
        ({
            let m = ServerMessageView::Error { message };
            spec_decode_server(spec_encode_server(m)) == Some(m)
        }),
{
    let m = ServerMessageView::Error { message };
    let pre = ("{\"type\":\"")@;
    let tag = ("Error")@;
    let litmsg = (",\"message\":\"")@;
    let close = ("}")@;
    reveal_strlit("Error");
    lemma_tags_distinct();
    lemma_esc_clean(tag);
    let rest2 = litmsg + esc(message) + seq!['"'] + close;
    let rest1 = esc(tag) + seq!['"'] + rest2;
    assert(spec_encode_server(m) =~= pre + rest1);
    lemma_expect_concat(pre, rest1);
    lemma_parse_esc(tag, rest2);
    lemma_error_payload(message);
}

/// Round trip for outbound events: decoding the canonical envelope of any
/// well-formed event gives back exactly that event.
pub proof fn lemma_server_round_trip(m: ServerMessageView)
    requires
        crate::messages::wf_server_view(m),
    ensures
        spec_decode_server(spec_encode_server(m)) == Some(m),
{
    match m {
        ServerMessageView::PlayerJoined { player_id, player_name, x, y, z } => {
            lemma_rt_server_joined(player_id, player_name, x, y, z);
        },
        ServerMessageView::PlayerLeft { player_id } => {
            lemma_rt_server_left(player_id);
        },
        ServerMessageView::PlayerMoved { player_id, x, y, z } => {
            lemma_rt_server_moved(player_id, x, y, z);
        },
        ServerMessageView::GameState { players } => {
            lemma_rt_server_game_state(players);
        },
        ServerMessageView::Error { message } => {
            lemma_rt_server_error(message);
        },
    }
}


/// Encodes one player record alone, as it appears inside a GameState
/// payload.
pub fn encode_player(p: &Player) -> (r: String)
    ensures
        r@ == spec_encode_player(p.deep_view()),
{
    let mut out = String::new();
    encode_player_append(&mut out, p);
    out
}

/// Decodes one player record alone; the whole input must be the one object.
pub fn decode_player(s: &str) -> (r: Option<Player>)
    ensures
        match r {
            Some(p) => {
                &&& p.wf()
                &&& spec_parse_player(s@) == Some((p.deep_view(), Seq::<char>::empty()))
            },
            None => !(spec_parse_player(s@) matches Some(pr) && pr.1.len() == 0),
        },
{
    let n = s.unicode_len();
    proof {
        assert(s@.skip(0) =~= s@);
    }
    match parse_player_at(s, 0, n) {
        Some((p, j)) => {
            if j == n {
                proof {
                    assert(s@.skip(j as int) =~= Seq::<char>::empty());
                }
                Some(p)
            } else {
                proof {
                    assert(s@.skip(j as int).len() > 0);
                }
                None
            }
        },
        None => None,
    }
}

/// Round trip for one player record.
pub proof fn lemma_player_round_trip(p: PlayerView)
    requires
        crate::messages::wf_player_view(p),
    ensures
        spec_parse_player(spec_encode_player(p)) == Some((p, Seq::<char>::empty())),
{
    assert(spec_encode_player(p) =~= spec_encode_player(p) + Seq::<char>::empty());
    lemma_parse_player_enc(p, Seq::<char>::empty());
}

} // verus!
