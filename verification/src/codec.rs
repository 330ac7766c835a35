//! The persisted registry document.
//!
//! The registry is stored as one structured text document with a single
//! field, `containers`, mapping each host name to its list of container
//! names:
//!
//! ```text
//! {"containers":{"hostA":["web","db"],"hostB":[]}}
//! ```
//!
//! Quotes, backslashes and the common control characters inside a name are
//! escaped with a backslash.  [`enc_doc`] is the specification of the
//! format; the parser accepts exactly the documents some entry sequence
//! encodes to (with any entry order, hosts distinct), and anything else is
//! data corruption.

use vstd::prelude::*;
use vstd::string::*;
use crate::errors::DevboxError;
use crate::registry::{entry_views, keys_unique, HostEntry, HostRegistry};
use crate::text::push_char;

verus! {

// ---------------------------------------------------------------------
// Specification of the encoding.
// ---------------------------------------------------------------------

/// How one character is written inside a quoted name.
pub open spec fn esc_char(c: char) -> Seq<char> {
    if c == '"' {
        seq!['\\', '"']
    } else if c == '\\' {
        seq!['\\', '\\']
    } else if c == '\n' {
        seq!['\\', 'n']
    } else if c == '\t' {
        seq!['\\', 't']
    } else if c == '\r' {
        seq!['\\', 'r']
    } else {
        seq![c]
    }
}

/// A name's characters, each escaped.
pub open spec fn esc_seq(s: Seq<char>) -> Seq<char>
    decreases s.len(),
{
    if s.len() == 0 {
        Seq::empty()
    } else {
        esc_char(s[0]) + esc_seq(s.drop_first())
    }
}

/// A quoted, escaped name.
pub open spec fn enc_string(s: Seq<char>) -> Seq<char> {
    seq!['"'] + esc_seq(s) + seq!['"']
}

/// The comma-separated quoted names of a non-empty list body.
pub open spec fn enc_items(l: Seq<Seq<char>>) -> Seq<char>
    decreases l.len(),
{
    if l.len() == 0 {
        Seq::empty()
    } else if l.len() == 1 {
        enc_string(l[0])
    } else {
        enc_string(l[0]) + seq![','] + enc_items(l.drop_first())
    }
}

/// A bracketed container list.
pub open spec fn enc_list(l: Seq<Seq<char>>) -> Seq<char> {
    seq!['['] + enc_items(l) + seq![']']
}

/// One `"host":[...]` pair.
pub open spec fn enc_entry(e: (Seq<char>, Seq<Seq<char>>)) -> Seq<char> {
    enc_string(e.0) + seq![':'] + enc_list(e.1)
}

/// The comma-separated pairs of a non-empty mapping body.
pub open spec fn enc_entries(es: Seq<(Seq<char>, Seq<Seq<char>>)>) -> Seq<char>
    decreases es.len(),
{
    if es.len() == 0 {
        Seq::empty()
    } else if es.len() == 1 {
        enc_entry(es[0])
    } else {
        enc_entry(es[0]) + seq![','] + enc_entries(es.drop_first())
    }
}

/// The braced host mapping.
pub open spec fn enc_map(es: Seq<(Seq<char>, Seq<Seq<char>>)>) -> Seq<char> {
    seq!['{'] + enc_entries(es) + seq!['}']
}

/// The whole persisted document for an entry sequence.
pub open spec fn enc_doc(es: Seq<(Seq<char>, Seq<Seq<char>>)>) -> Seq<char> {
    seq!['{'] + enc_string("containers"@) + seq![':'] + enc_map(es) + seq!['}']
}

// ---------------------------------------------------------------------
// Specification of the parser.
// ---------------------------------------------------------------------

/// The character an escape code stands for, if the code is valid.
pub open spec fn unesc_char(c: char) -> Option<char> {
    if c == '"' {
        Some('"')
    } else if c == '\\' {
        Some('\\')
    } else if c == 'n' {
        Some('\n')
    } else if c == 't' {
        Some('\t')
    } else if c == 'r' {
        Some('\r')
    } else {
        None
    }
}

/// Reads a quoted name's body starting at `pos` (just past the opening
/// quote) up to and past its closing quote; the value and the position
/// after the quote, or `None` on an invalid escape or an unterminated name.
pub open spec fn sp_str_body(inp: Seq<char>, pos: int) -> Option<(Seq<char>, int)>
    decreases inp.len() - pos,
{
    if pos < 0 || pos >= inp.len() {
        None
    } else if inp[pos] == '"' {
        Some((Seq::empty(), pos + 1))
    } else if inp[pos] == '\\' {
        if pos + 2 > inp.len() {
            None
        } else {
            match unesc_char(inp[pos + 1]) {
                None => None,
                Some(c) => match sp_str_body(inp, pos + 2) {
                    None => None,
                    Some((s, e)) => Some((seq![c] + s, e)),
                },
            }
        }
    } else {
        match sp_str_body(inp, pos + 1) {
            None => None,
            Some((s, e)) => Some((seq![inp[pos]] + s, e)),
        }
    }
}

/// Reads a quoted name starting at its opening quote.
pub open spec fn sp_string(inp: Seq<char>, pos: int) -> Option<(Seq<char>, int)> {
    if 0 <= pos < inp.len() && inp[pos] == '"' {
        sp_str_body(inp, pos + 1)
    } else {
        None
    }
}

/// Reads the members of a non-empty list from the first name up to and past
/// the closing bracket.
pub open spec fn sp_list_items(inp: Seq<char>, pos: int) -> Option<(Seq<Seq<char>>, int)>
    decreases inp.len() - pos,
{
    match sp_string(inp, pos) {
        None => None,
        Some((v, e)) => if !(pos < e && e < inp.len()) {
            None
        } else if inp[e] == ',' {
            match sp_list_items(inp, e + 1) {
                None => None,
                Some((vs, e2)) => Some((seq![v] + vs, e2)),
            }
        } else if inp[e] == ']' {
            Some((seq![v], e + 1))
        } else {
            None
        },
    }
}

/// Reads a bracketed container list.
pub open spec fn sp_list(inp: Seq<char>, pos: int) -> Option<(Seq<Seq<char>>, int)> {
    if !(0 <= pos && pos + 1 < inp.len() && inp[pos] == '[') {
        None
    } else if inp[pos + 1] == ']' {
        Some((Seq::empty(), pos + 2))
    } else {
        sp_list_items(inp, pos + 1)
    }
}

/// Reads one `"host":[...]` pair.
pub open spec fn sp_entry(inp: Seq<char>, pos: int) -> Option<((Seq<char>, Seq<Seq<char>>), int)> {
    match sp_string(inp, pos) {
        None => None,
        Some((h, e)) => if !(pos < e && e < inp.len() && inp[e] == ':') {
            None
        } else {
            match sp_list(inp, e + 1) {
                None => None,
                Some((cs, e2)) => Some(((h, cs), e2)),
            }
        },
    }
}

/// Reads the pairs of a non-empty mapping from the first pair up to and
/// past the closing brace.
pub open spec fn sp_map_items(inp: Seq<char>, pos: int) -> Option<
    (Seq<(Seq<char>, Seq<Seq<char>>)>, int),
>
    decreases inp.len() - pos,
{
    match sp_entry(inp, pos) {
        None => None,
        Some((en, e)) => if !(pos < e && e < inp.len()) {
            None
        } else if inp[e] == ',' {
            match sp_map_items(inp, e + 1) {
                None => None,
                Some((ens, e2)) => Some((seq![en] + ens, e2)),
            }
        } else if inp[e] == '}' {
            Some((seq![en], e + 1))
        } else {
            None
        },
    }
}

/// Reads a braced host mapping.
pub open spec fn sp_map(inp: Seq<char>, pos: int) -> Option<
    (Seq<(Seq<char>, Seq<Seq<char>>)>, int),
> {
    if !(0 <= pos && pos + 1 < inp.len() && inp[pos] == '{') {
        None
    } else if inp[pos + 1] == '}' {
        Some((Seq::empty(), pos + 2))
    } else {
        sp_map_items(inp, pos + 1)
    }
}

/// Reads a whole document: the entry sequence it carries, if the text is a
/// well-formed document and nothing follows it.
pub open spec fn sp_doc(inp: Seq<char>) -> Option<Seq<(Seq<char>, Seq<Seq<char>>)>> {
    if !(0 < inp.len() && inp[0] == '{') {
        None
    } else {
        match sp_string(inp, 1) {
            None => None,
            Some((key, e)) => if key != "containers"@ {
                None
            } else if !(e < inp.len() && inp[e] == ':') {
                None
            } else {
                match sp_map(inp, e + 1) {
                    None => None,
                    Some((es, e2)) => if e2 + 1 == inp.len() && inp[e2] == '}' {
                        Some(es)
                    } else {
                        None
                    },
                }
            },
        }
    }
}

/// A document the loader accepts: well-formed, with pairwise-distinct
/// hosts.
pub open spec fn doc_valid(inp: Seq<char>) -> bool {
    match sp_doc(inp) {
        Some(es) => keys_unique(es),
        None => false,
    }
}

// ---------------------------------------------------------------------
// The executable encoder.
// ---------------------------------------------------------------------

proof fn lemma_esc_seq_snoc(s: Seq<char>, c: char)
    ensures
        esc_seq(s.push(c)) == esc_seq(s) + esc_char(c),
    decreases s.len(),
{
    let p = s.push(c);
    if s.len() == 0 {
        assert(p[0] == c);
        assert(p.drop_first() =~= Seq::<char>::empty());
        assert(esc_seq(p) == esc_char(c) + esc_seq(p.drop_first()));
        assert(esc_seq(p.drop_first()) == Seq::<char>::empty());
        assert(esc_seq(p) =~= esc_seq(s) + esc_char(c));
    } else {
        lemma_esc_seq_snoc(s.drop_first(), c);
        assert(p[0] == s[0]);
        assert(p.drop_first() =~= s.drop_first().push(c));
        assert(esc_seq(p) == esc_char(s[0]) + esc_seq(s.drop_first().push(c)));
        assert(esc_seq(s) == esc_char(s[0]) + esc_seq(s.drop_first()));
        assert(esc_seq(p) =~= esc_seq(s) + esc_char(c));
    }
}

pub(crate) fn encode_string_into(out: &mut String, s: &str)
    ensures
        final(out)@ == old(out)@ + enc_string(s@),
{
    proof {
        reveal_strlit("\\\"");
        reveal_strlit("\\\\");
        reveal_strlit("\\n");
        reveal_strlit("\\t");
        reveal_strlit("\\r");
    }
    push_char(out, '"');
    let len = s.unicode_len();
    let mut i: usize = 0;
    proof {
        assert(s@.take(0) =~= Seq::<char>::empty());
        assert(out@ =~= old(out)@ + seq!['"'] + esc_seq(s@.take(0)));
    }
    while i < len
        invariant
            i <= len,
            len == s@.len(),
            out@ == old(out)@ + seq!['"'] + esc_seq(s@.take(i as int)),
        decreases len - i,
    {
        proof {
            reveal_strlit("\\\"");
            reveal_strlit("\\\\");
            reveal_strlit("\\n");
            reveal_strlit("\\t");
            reveal_strlit("\\r");
        }
        let ghost prefix = s@.take(i as int);
        let c = s.get_char(i);
        if c == '"' {
            out.append("\\\"");
        } else if c == '\\' {
            out.append("\\\\");
        } else if c == '\n' {
            out.append("\\n");
        } else if c == '\t' {
            out.append("\\t");
        } else if c == '\r' {
            out.append("\\r");
        } else {
            push_char(out, c);
        }
        i += 1;
        proof {
            lemma_esc_seq_snoc(prefix, c);
            assert(s@.take(i as int) =~= prefix.push(c));
            assert(out@ =~= old(out)@ + seq!['"'] + esc_seq(s@.take(i as int)));
        }
    }
    push_char(out, '"');
    proof {
        assert(s@.take(len as int) =~= s@);
        assert(out@ =~= old(out)@ + enc_string(s@));
    }
}

proof fn lemma_enc_items_snoc(l: Seq<Seq<char>>, v: Seq<char>)
    requires
        l.len() >= 1,
    ensures
        enc_items(l.push(v)) == enc_items(l) + seq![','] + enc_string(v),
    decreases l.len(),
{
    if l.len() == 1 {
        assert(l.push(v).drop_first() =~= seq![v]);
        assert(enc_items(seq![v]) == enc_string(v));
        assert(enc_items(l.push(v)) =~= enc_items(l) + seq![','] + enc_string(v));
    } else {
        lemma_enc_items_snoc(l.drop_first(), v);
        assert(l.push(v).drop_first() =~= l.drop_first().push(v));
        assert(enc_items(l.push(v)) =~= enc_items(l) + seq![','] + enc_string(v));
    }
}

fn encode_list_into(out: &mut String, items: &Vec<String>)
    ensures
        final(out)@ == old(out)@ + enc_list(items@.map_values(|x: String| x@)),
{
    let ghost l = items@.map_values(|x: String| x@);
    push_char(out, '[');
    if items.len() > 0 {
        encode_string_into(out, items[0].as_str());
        proof {
            assert(l.take(1) =~= seq![l[0]]);
            assert(enc_items(l.take(1)) == enc_string(l[0]));
            assert(out@ =~= old(out)@ + seq!['['] + enc_items(l.take(1)));
        }
        let mut i: usize = 1;
        while i < items.len()
            invariant
                1 <= i <= items.len(),
                l == items@.map_values(|x: String| x@),
                l.len() == items@.len(),
                out@ == old(out)@ + seq!['['] + enc_items(l.take(i as int)),
            decreases items.len() - i,
        {
            let ghost prefix = l.take(i as int);
            push_char(out, ',');
            encode_string_into(out, items[i].as_str());
            proof {
                lemma_enc_items_snoc(prefix, l[i as int]);
                assert(l.take(i + 1) =~= prefix.push(l[i as int]));
                assert(out@ =~= old(out)@ + seq!['['] + enc_items(l.take(i + 1)));
            }
            i += 1;
        }
        proof {
            assert(l.take(l.len() as int) =~= l);
        }
    } else {
        proof {
            assert(l =~= Seq::<Seq<char>>::empty());
        }
    }
    push_char(out, ']');
    proof {
        assert(out@ =~= old(out)@ + enc_list(l));
    }
}

proof fn lemma_enc_entries_snoc(es: Seq<(Seq<char>, Seq<Seq<char>>)>, en: (Seq<char>, Seq<Seq<char>>))
    requires
        es.len() >= 1,
    ensures
        enc_entries(es.push(en)) == enc_entries(es) + seq![','] + enc_entry(en),
    decreases es.len(),
{
    if es.len() == 1 {
        assert(es.push(en).drop_first() =~= seq![en]);
        assert(enc_entries(seq![en]) == enc_entry(en));
        assert(enc_entries(es.push(en)) =~= enc_entries(es) + seq![','] + enc_entry(en));
    } else {
        lemma_enc_entries_snoc(es.drop_first(), en);
        assert(es.push(en).drop_first() =~= es.drop_first().push(en));
        assert(enc_entries(es.push(en)) =~= enc_entries(es) + seq![','] + enc_entry(en));
    }
}

fn encode_entry_into(out: &mut String, entry: &HostEntry)
    ensures
        final(out)@ == old(out)@ + enc_entry(entry@),
{
    encode_string_into(out, entry.host.as_str());
    push_char(out, ':');
    encode_list_into(out, &entry.containers);
    proof {
        assert(out@ =~= old(out)@ + enc_entry(entry@));
    }
}

/// Writes the registry as the persisted document.
pub fn encode_registry(reg: &HostRegistry) -> (r: String)
    ensures
        r@ == enc_doc(reg@),
{
    let mut out = String::new();
    push_char(&mut out, '{');
    encode_string_into(&mut out, "containers");
    push_char(&mut out, ':');
    push_char(&mut out, '{');
    let ghost es = reg@;
    let n = reg.entries.len();
    if n > 0 {
        encode_entry_into(&mut out, &reg.entries[0]);
        proof {
            assert(es.take(1) =~= seq![es[0]]);
            assert(es[0] == reg.entries@[0]@);
            assert(enc_entries(es.take(1)) == enc_entry(es[0]));
            assert(out@ =~= seq!['{'] + enc_string("containers"@) + seq![':'] + seq!['{']
                + enc_entries(es.take(1)));
        }
        let mut i: usize = 1;
        while i < n
            invariant
                1 <= i <= n,
                n == reg.entries@.len(),
                es == reg@,
                es.len() == n,
                out@ == seq!['{'] + enc_string("containers"@) + seq![':'] + seq!['{']
                    + enc_entries(es.take(i as int)),
            decreases n - i,
        {
            let ghost prefix = es.take(i as int);
            push_char(&mut out, ',');
            encode_entry_into(&mut out, &reg.entries[i]);
            proof {
                assert(es[i as int] == reg.entries@[i as int]@);
                lemma_enc_entries_snoc(prefix, es[i as int]);
                assert(es.take(i + 1) =~= prefix.push(es[i as int]));
                assert(out@ =~= seq!['{'] + enc_string("containers"@) + seq![':'] + seq!['{']
                    + enc_entries(es.take(i + 1)));
            }
            i += 1;
        }
        proof {
            assert(es.take(es.len() as int) =~= es);
        }
    } else {
        proof {
            assert(es =~= Seq::<(Seq<char>, Seq<Seq<char>>)>::empty());
        }
    }
    push_char(&mut out, '}');
    push_char(&mut out, '}');
    proof {
        assert(out@ =~= enc_doc(es));
    }
    out
}

// ---------------------------------------------------------------------
// The executable parser.
// ---------------------------------------------------------------------

fn parse_string_at(s: &str, pos: usize) -> (r: Option<(String, usize)>)
    requires
        pos <= s@.len(),
    ensures
        (match r {
            Some((v, e)) => sp_string(s@, pos as int) == Some((v@, e as int)) && pos < e
                <= s@.len(),
            None => sp_string(s@, pos as int) is None,
        }),
{
    let len = s.unicode_len();
    if pos >= len {
        return None;
    }
    if s.get_char(pos) != '"' {
        return None;
    }
    let mut v = String::new();
    let mut i = pos + 1;
    proof {
        match sp_str_body(s@, pos + 1) {
            Some((w, e)) => {
                assert(Seq::<char>::empty() + w =~= w);
            },
            None => {},
        }
    }
    loop
        invariant
            pos + 1 <= i <= len,
            len == s@.len(),
            pos < len,
            s@[pos as int] == '"',
            (sp_str_body(s@, pos + 1) == (match sp_str_body(s@, i as int) {
                None => None::<(Seq<char>, int)>,
                Some((w, e)) => Some((v@ + w, e)),
            })),
        decreases len - i,
    {
        if i >= len {
            return None;
        }
        let c = s.get_char(i);
        if c == '"' {
            proof {
                assert(v@ + Seq::<char>::empty() =~= v@);
            }
            return Some((v, i + 1));
        } else if c == '\\' {
            if i + 1 >= len {
                return None;
            }
            let c2 = s.get_char(i + 1);
            let u: char;
            if c2 == '"' {
                u = '"';
            } else if c2 == '\\' {
                u = '\\';
            } else if c2 == 'n' {
                u = '\n';
            } else if c2 == 't' {
                u = '\t';
            } else if c2 == 'r' {
                u = '\r';
            } else {
                return None;
            }
            let ghost vold = v@;
            push_char(&mut v, u);
            proof {
                match sp_str_body(s@, i + 2) {
                    Some((w2, _e2)) => {
                        assert(vold + (seq![u] + w2) =~= v@ + w2);
                    },
                    None => {},
                }
            }
            i = i + 2;
        } else {
            let ghost vold = v@;
            push_char(&mut v, c);
            proof {
                match sp_str_body(s@, i + 1) {
                    Some((w2, _e2)) => {
                        assert(vold + (seq![c] + w2) =~= v@ + w2);
                    },
                    None => {},
                }
            }
            i = i + 1;
        }
    }
}

fn parse_list_at(s: &str, pos: usize) -> (r: Option<(Vec<String>, usize)>)
    requires
        pos <= s@.len(),
    ensures
        (match r {
            Some((vs, e)) => sp_list(s@, pos as int) == Some(
                (vs@.map_values(|x: String| x@), e as int),
            ) && pos < e <= s@.len(),
            None => sp_list(s@, pos as int) is None,
        }),
{
    let len = s.unicode_len();
    if pos >= len || s.get_char(pos) != '[' {
        return None;
    }
    if pos + 1 >= len {
        return None;
    }
    if s.get_char(pos + 1) == ']' {
        let vs: Vec<String> = Vec::new();
        proof {
            assert(vs@.map_values(|x: String| x@) =~= Seq::<Seq<char>>::empty());
        }
        return Some((vs, pos + 2));
    }
    let mut vs: Vec<String> = Vec::new();
    let mut cur = pos + 1;
    proof {
        assert(vs@.map_values(|x: String| x@) =~= Seq::<Seq<char>>::empty());
        match sp_list_items(s@, pos + 1) {
            Some((ws, e)) => {
                assert(Seq::<Seq<char>>::empty() + ws =~= ws);
            },
            None => {},
        }
    }
    loop
        invariant
            pos + 1 <= cur <= len,
            len == s@.len(),
            (sp_list(s@, pos as int) == (match sp_list_items(s@, cur as int) {
                None => None::<(Seq<Seq<char>>, int)>,
                Some((ws, e)) => Some((vs@.map_values(|x: String| x@) + ws, e)),
            })),
        decreases len - cur,
    {
        let ghost vsold = vs@.map_values(|x: String| x@);
        match parse_string_at(s, cur) {
            None => {
                return None;
            },
            Some((v, e)) => {
                let ghost vv = v@;
                vs.push(v);
                proof {
                    assert(vs@.map_values(|x: String| x@) =~= vsold.push(vv));
                }
                if e >= len {
                    return None;
                }
                let c = s.get_char(e);
                if c == ',' {
                    proof {
                        match sp_list_items(s@, e + 1) {
                            Some((ws, _e2)) => {
                                assert(vsold + (seq![vv] + ws) =~= vsold.push(vv) + ws);
                            },
                            None => {},
                        }
                    }
                    cur = e + 1;
                } else if c == ']' {
                    proof {
                        assert(vsold + seq![vv] =~= vsold.push(vv));
                    }
                    return Some((vs, e + 1));
                } else {
                    return None;
                }
            },
        }
    }
}

fn parse_entry_at(s: &str, pos: usize) -> (r: Option<(HostEntry, usize)>)
    requires
        pos <= s@.len(),
    ensures
        (match r {
            Some((en, e)) => sp_entry(s@, pos as int) == Some((en@, e as int)) && pos < e
                <= s@.len(),
            None => sp_entry(s@, pos as int) is None,
        }),
{
    let len = s.unicode_len();
    match parse_string_at(s, pos) {
        None => None,
        Some((h, e1)) => {
            if e1 >= len {
                return None;
            }
            if s.get_char(e1) != ':' {
                return None;
            }
            match parse_list_at(s, e1 + 1) {
                None => None,
                Some((cs, e2)) => Some((HostEntry { host: h, containers: cs }, e2)),
            }
        },
    }
}

fn parse_map_at(s: &str, pos: usize) -> (r: Option<(Vec<HostEntry>, usize)>)
    requires
        pos <= s@.len(),
    ensures
        (match r {
            Some((ens, e)) => sp_map(s@, pos as int) == Some(
                (entry_views(ens@), e as int),
            ) && pos < e <= s@.len(),
            None => sp_map(s@, pos as int) is None,
        }),
{
    let len = s.unicode_len();
    if pos >= len || s.get_char(pos) != '{' {
        return None;
    }
    if pos + 1 >= len {
        return None;
    }
    if s.get_char(pos + 1) == '}' {
        let ens: Vec<HostEntry> = Vec::new();
        proof {
            assert(entry_views(ens@) =~= Seq::<
                (Seq<char>, Seq<Seq<char>>),
            >::empty());
        }
        return Some((ens, pos + 2));
    }
    let mut ens: Vec<HostEntry> = Vec::new();
    let mut cur = pos + 1;
    proof {
        assert(entry_views(ens@) =~= Seq::<
            (Seq<char>, Seq<Seq<char>>),
        >::empty());
        match sp_map_items(s@, pos + 1) {
            Some((ws, e)) => {
                assert(Seq::<(Seq<char>, Seq<Seq<char>>)>::empty() + ws =~= ws);
            },
            None => {},
        }
    }
    loop
        invariant
            pos + 1 <= cur <= len,
            len == s@.len(),
            (sp_map(s@, pos as int) == (match sp_map_items(s@, cur as int) {
                None => None::<(Seq<(Seq<char>, Seq<Seq<char>>)>, int)>,
                Some((ws, e)) => Some((entry_views(ens@) + ws, e)),
            })),
        decreases len - cur,
    {
        let ghost ensold = entry_views(ens@);
        match parse_entry_at(s, cur) {
            None => {
                return None;
            },
            Some((en, e)) => {
                let ghost env = en@;
                ens.push(en);
                proof {
                    assert(entry_views(ens@) =~= ensold.push(env));
                }
                if e >= len {
                    return None;
                }
                let c = s.get_char(e);
                if c == ',' {
                    proof {
                        match sp_map_items(s@, e + 1) {
                            Some((ws, _e2)) => {
                                assert(ensold + (seq![env] + ws) =~= ensold.push(env) + ws);
                            },
                            None => {},
                        }
                    }
                    cur = e + 1;
                } else if c == '}' {
                    proof {
                        assert(ensold + seq![env] =~= ensold.push(env));
                    }
                    return Some((ens, e + 1));
                } else {
                    return None;
                }
            },
        }
    }
}

fn hosts_unique(entries: &Vec<HostEntry>) -> (r: bool)
    ensures
        r == keys_unique(entry_views(entries@)),
{
    let ghost ev = entry_views(entries@);
    let n = entries.len();
    let mut i: usize = 0;
    while i < n
        invariant
            i <= n,
            n == entries@.len(),
            ev == entry_views(entries@),
            ev.len() == n,
            keys_unique(ev.take(i as int)),
        decreases n - i,
    {
        let mut j: usize = 0;
        while j < i
            invariant
                j <= i < n,
                n == entries@.len(),
                ev == entry_views(entries@),
                ev.len() == n,
                keys_unique(ev.take(i as int)),
                forall|b: int| 0 <= b < j ==> (#[trigger] ev[b]).0 != ev[i as int].0,
            decreases i - j,
        {
            if entries[j].host.eq(&entries[i].host) {
                proof {
                    assert(ev[j as int] == entries@[j as int]@);
                    assert(ev[i as int] == entries@[i as int]@);
                    assert(ev[j as int].0 == ev[i as int].0);
                    assert(!keys_unique(ev));
                }
                return false;
            }
            proof {
                assert(ev[j as int] == entries@[j as int]@);
                assert(ev[i as int] == entries@[i as int]@);
            }
            j += 1;
        }
        proof {
            assert forall|a: int, b: int| 0 <= a < b < i + 1 implies (#[trigger] ev.take(
                i + 1,
            )[a]).0 != (#[trigger] ev.take(i + 1)[b]).0 by {
                assert(ev.take(i + 1)[a] == ev[a]);
                assert(ev.take(i + 1)[b] == ev[b]);
                if b < i {
                    assert(ev.take(i as int)[a] == ev[a]);
                    assert(ev.take(i as int)[b] == ev[b]);
                }
            }
        }
        i += 1;
    }
    proof {
        assert(ev.take(n as int) =~= ev);
    }
    true
}

/// Reads a persisted registry document back into a registry.  Exactly the
/// valid documents (well-formed, hosts pairwise distinct) are accepted;
/// every other text is reported as data corruption, never as an empty
/// registry.
pub fn parse_registry(s: &str) -> (r: Result<HostRegistry, DevboxError>)
    ensures
        r matches Ok(reg) ==> sp_doc(s@) == Some(reg@) && reg.wf(),
        r matches Err(e) ==> e == DevboxError::DataCorruption && !doc_valid(s@),
        doc_valid(s@) ==> r is Ok,
{
    let len = s.unicode_len();
    if len == 0 || s.get_char(0) != '{' {
        return Err(DevboxError::DataCorruption);
    }
    match parse_string_at(s, 1) {
        None => Err(DevboxError::DataCorruption),
        Some((key, e)) => {
            let expected = String::from_str("containers");
            if !key.eq(&expected) {
                return Err(DevboxError::DataCorruption);
            }
            if e >= len {
                return Err(DevboxError::DataCorruption);
            }
            if s.get_char(e) != ':' {
                return Err(DevboxError::DataCorruption);
            }
            match parse_map_at(s, e + 1) {
                None => Err(DevboxError::DataCorruption),
                Some((entries, e2)) => {
                    if e2 >= len {
                        return Err(DevboxError::DataCorruption);
                    }
                    if !(e2 + 1 == len && s.get_char(e2) == '}') {
                        return Err(DevboxError::DataCorruption);
                    }
                    if !hosts_unique(&entries) {
                        return Err(DevboxError::DataCorruption);
                    }
                    let reg = HostRegistry { entries };
                    Ok(reg)
                },
            }
        },
    }
}

/// Loads the registry from the persisted file's content, or from nothing:
/// a missing file yields the empty registry, never an error, while an
/// existing file that is not a valid document is data corruption.
pub fn load_registry(content: Option<&String>) -> (r: Result<HostRegistry, DevboxError>)
    ensures
        content is None ==> (r matches Ok(reg) && reg@ == Seq::<
            (Seq<char>, Seq<Seq<char>>),
        >::empty()),
        r matches Ok(reg) ==> reg.wf(),
        content matches Some(c) ==> ((r matches Ok(reg) ==> sp_doc(c@) == Some(reg@)) && (
        r matches Err(er) ==> er == DevboxError::DataCorruption && !doc_valid(c@)) && (doc_valid(
            c@,
        ) ==> r is Ok)),
{
    match content {
        None => Ok(HostRegistry::new()),
        Some(c) => parse_registry(c.as_str()),
    }
}

// ---------------------------------------------------------------------
// The round trip: a saved document always parses back to what was saved.
// ---------------------------------------------------------------------

proof fn lemma_sub_subrange(inp: Seq<char>, a: int, b: int, x: int, y: int)
    requires
        0 <= a <= x <= y <= b <= inp.len(),
    ensures
        inp.subrange(x, y) == inp.subrange(a, b).subrange(x - a, y - a),
{
    assert(inp.subrange(x, y) =~= inp.subrange(a, b).subrange(x - a, y - a));
}

proof fn lemma_sp_str_body_complete(inp: Seq<char>, pos: int, s: Seq<char>)
    requires
        0 <= pos,
        pos + esc_seq(s).len() + 1 <= inp.len(),
        inp.subrange(pos, pos + esc_seq(s).len() + 1) == esc_seq(s) + seq!['"'],
    ensures
        sp_str_body(inp, pos) == Some((s, pos + esc_seq(s).len() + 1)),
    decreases s.len(),
{
    let whole = esc_seq(s) + seq!['"'];
    let all = pos + esc_seq(s).len() + 1;
    if s.len() == 0 {
        assert(esc_seq(s).len() == 0);
        assert(inp.subrange(pos, pos + 1)[0] == whole[0]);
        assert(inp[pos] == '"');
        assert(s =~= Seq::<char>::empty());
    } else {
        let c = s[0];
        let rest = s.drop_first();
        let k = esc_char(c).len() as int;
        assert(esc_seq(s) == esc_char(c) + esc_seq(rest));
        assert(inp.subrange(pos, all)[0] == whole[0]);
        assert(inp[pos] == esc_char(c)[0]);
        lemma_sub_subrange(inp, pos, all, pos + k, all);
        assert(inp.subrange(pos, all).subrange(k, all - pos) =~= esc_seq(rest) + seq!['"']);
        assert(inp.subrange(pos + k, all) == esc_seq(rest) + seq!['"']);
        lemma_sp_str_body_complete(inp, pos + k, rest);
        if k == 2 {
            assert(inp.subrange(pos, all)[1] == whole[1]);
            assert(inp[pos + 1] == esc_char(c)[1]);
            assert(inp[pos] == '\\');
            assert(unesc_char(esc_char(c)[1]) == Some(c));
            assert(seq![c] + rest =~= s);
            assert(sp_str_body(inp, pos) == Some((s, all)));
        } else {
            assert(esc_char(c) =~= seq![c]);
            assert(inp[pos] == c);
            assert(c != '"' && c != '\\');
            assert(seq![c] + rest =~= s);
            assert(sp_str_body(inp, pos) == Some((s, all)));
        }
    }
}

proof fn lemma_sp_string_complete(inp: Seq<char>, pos: int, s: Seq<char>)
    requires
        0 <= pos,
        pos + enc_string(s).len() <= inp.len(),
        inp.subrange(pos, pos + enc_string(s).len()) == enc_string(s),
    ensures
        sp_string(inp, pos) == Some((s, pos + enc_string(s).len())),
{
    let all = pos + enc_string(s).len();
    assert(inp.subrange(pos, all)[0] == enc_string(s)[0]);
    assert(inp[pos] == '"');
    lemma_sub_subrange(inp, pos, all, pos + 1, all);
    assert(inp.subrange(pos, all).subrange(1, all - pos) =~= esc_seq(s) + seq!['"']);
    assert(inp.subrange(pos + 1, all) == esc_seq(s) + seq!['"']);
    lemma_sp_str_body_complete(inp, pos + 1, s);
}

proof fn lemma_sp_list_items_complete(inp: Seq<char>, pos: int, l: Seq<Seq<char>>)
    requires
        l.len() >= 1,
        0 <= pos,
        pos + enc_items(l).len() + 1 <= inp.len(),
        inp.subrange(pos, pos + enc_items(l).len() + 1) == enc_items(l) + seq![']'],
    ensures
        sp_list_items(inp, pos) == Some((l, pos + enc_items(l).len() + 1)),
    decreases l.len(),
{
    let whole = enc_items(l) + seq![']'];
    let all = pos + enc_items(l).len() + 1;
    if l.len() == 1 {
        assert(enc_items(l) == enc_string(l[0]));
        let e = pos + enc_string(l[0]).len();
        lemma_sub_subrange(inp, pos, all, pos, e);
        assert(inp.subrange(pos, all).subrange(0, e - pos) =~= enc_string(l[0]));
        assert(inp.subrange(pos, e) == enc_string(l[0]));
        lemma_sp_string_complete(inp, pos, l[0]);
        assert(inp.subrange(pos, all)[e - pos] == whole[e - pos]);
        assert(inp[e] == ']');
        assert(seq![l[0]] =~= l);
        assert(sp_list_items(inp, pos) == Some((l, e + 1)));
    } else {
        let rest = l.drop_first();
        assert(enc_items(l) == enc_string(l[0]) + seq![','] + enc_items(rest));
        let e = pos + enc_string(l[0]).len();
        lemma_sub_subrange(inp, pos, all, pos, e);
        assert(inp.subrange(pos, all).subrange(0, e - pos) =~= enc_string(l[0]));
        assert(inp.subrange(pos, e) == enc_string(l[0]));
        lemma_sp_string_complete(inp, pos, l[0]);
        assert(inp.subrange(pos, all)[e - pos] == whole[e - pos]);
        assert(inp[e] == ',');
        lemma_sub_subrange(inp, pos, all, e + 1, all);
        assert(inp.subrange(pos, all).subrange(e + 1 - pos, all - pos) =~= enc_items(rest)
            + seq![']']);
        assert(inp.subrange(e + 1, all) == enc_items(rest) + seq![']']);
        lemma_sp_list_items_complete(inp, e + 1, rest);
        assert(seq![l[0]] + rest =~= l);
        assert(sp_list_items(inp, pos) == Some((l, all)));
    }
}

proof fn lemma_sp_list_complete(inp: Seq<char>, pos: int, l: Seq<Seq<char>>)
    requires
        0 <= pos,
        pos + enc_list(l).len() <= inp.len(),
        inp.subrange(pos, pos + enc_list(l).len()) == enc_list(l),
    ensures
        sp_list(inp, pos) == Some((l, pos + enc_list(l).len())),
{
    let all = pos + enc_list(l).len();
    assert(inp.subrange(pos, all)[0] == enc_list(l)[0]);
    assert(inp[pos] == '[');
    if l.len() == 0 {
        assert(enc_items(l).len() == 0);
        assert(inp.subrange(pos, all)[1] == enc_list(l)[1]);
        assert(inp[pos + 1] == ']');
        assert(l =~= Seq::<Seq<char>>::empty());
    } else {
        assert(inp.subrange(pos, all)[1] == enc_list(l)[1]);
        if l.len() == 1 {
            assert(enc_items(l) == enc_string(l[0]));
            assert(enc_list(l)[1] == enc_string(l[0])[0]);
        } else {
            assert(enc_items(l) == enc_string(l[0]) + seq![','] + enc_items(l.drop_first()));
            assert(enc_list(l)[1] == enc_string(l[0])[0]);
        }
        assert(inp[pos + 1] == '"');
        lemma_sub_subrange(inp, pos, all, pos + 1, all);
        assert(inp.subrange(pos, all).subrange(1, all - pos) =~= enc_items(l) + seq![']']);
        assert(inp.subrange(pos + 1, all) == enc_items(l) + seq![']']);
        lemma_sp_list_items_complete(inp, pos + 1, l);
    }
}

proof fn lemma_sp_entry_complete(inp: Seq<char>, pos: int, en: (Seq<char>, Seq<Seq<char>>))
    requires
        0 <= pos,
        pos + enc_entry(en).len() <= inp.len(),
        inp.subrange(pos, pos + enc_entry(en).len()) == enc_entry(en),
    ensures
        sp_entry(inp, pos) == Some((en, pos + enc_entry(en).len())),
{
    let all = pos + enc_entry(en).len();
    let e = pos + enc_string(en.0).len();
    lemma_sub_subrange(inp, pos, all, pos, e);
    assert(inp.subrange(pos, all).subrange(0, e - pos) =~= enc_string(en.0));
    assert(inp.subrange(pos, e) == enc_string(en.0));
    lemma_sp_string_complete(inp, pos, en.0);
    assert(inp.subrange(pos, all)[e - pos] == enc_entry(en)[e - pos]);
    assert(inp[e] == ':');
    lemma_sub_subrange(inp, pos, all, e + 1, all);
    assert(inp.subrange(pos, all).subrange(e + 1 - pos, all - pos) =~= enc_list(en.1));
    assert(inp.subrange(e + 1, all) == enc_list(en.1));
    lemma_sp_list_complete(inp, e + 1, en.1);
    assert((en.0, en.1) == en);
    assert(sp_entry(inp, pos) == Some((en, all)));
}

proof fn lemma_sp_map_items_complete(inp: Seq<char>, pos: int, es: Seq<(Seq<char>, Seq<Seq<char>>)>)
    requires
        es.len() >= 1,
        0 <= pos,
        pos + enc_entries(es).len() + 1 <= inp.len(),
        inp.subrange(pos, pos + enc_entries(es).len() + 1) == enc_entries(es) + seq!['}'],
    ensures
        sp_map_items(inp, pos) == Some((es, pos + enc_entries(es).len() + 1)),
    decreases es.len(),
{
    let whole = enc_entries(es) + seq!['}'];
    let all = pos + enc_entries(es).len() + 1;
    if es.len() == 1 {
        assert(enc_entries(es) == enc_entry(es[0]));
        let e = pos + enc_entry(es[0]).len();
        lemma_sub_subrange(inp, pos, all, pos, e);
        assert(inp.subrange(pos, all).subrange(0, e - pos) =~= enc_entry(es[0]));
        assert(inp.subrange(pos, e) == enc_entry(es[0]));
        lemma_sp_entry_complete(inp, pos, es[0]);
        assert(inp.subrange(pos, all)[e - pos] == whole[e - pos]);
        assert(inp[e] == '}');
        assert(seq![es[0]] =~= es);
        assert(sp_map_items(inp, pos) == Some((es, e + 1)));
    } else {
        let rest = es.drop_first();
        assert(enc_entries(es) == enc_entry(es[0]) + seq![','] + enc_entries(rest));
        let e = pos + enc_entry(es[0]).len();
        lemma_sub_subrange(inp, pos, all, pos, e);
        assert(inp.subrange(pos, all).subrange(0, e - pos) =~= enc_entry(es[0]));
        assert(inp.subrange(pos, e) == enc_entry(es[0]));
        lemma_sp_entry_complete(inp, pos, es[0]);
        assert(inp.subrange(pos, all)[e - pos] == whole[e - pos]);
        assert(inp[e] == ',');
        lemma_sub_subrange(inp, pos, all, e + 1, all);
        assert(inp.subrange(pos, all).subrange(e + 1 - pos, all - pos) =~= enc_entries(rest)
            + seq!['}']);
        assert(inp.subrange(e + 1, all) == enc_entries(rest) + seq!['}']);
        lemma_sp_map_items_complete(inp, e + 1, rest);
        assert(seq![es[0]] + rest =~= es);
        assert(sp_map_items(inp, pos) == Some((es, all)));
    }
}

proof fn lemma_sp_map_complete(inp: Seq<char>, pos: int, es: Seq<(Seq<char>, Seq<Seq<char>>)>)
    requires
        0 <= pos,
        pos + enc_map(es).len() <= inp.len(),
        inp.subrange(pos, pos + enc_map(es).len()) == enc_map(es),
    ensures
        sp_map(inp, pos) == Some((es, pos + enc_map(es).len())),
{
    let all = pos + enc_map(es).len();
    assert(inp.subrange(pos, all)[0] == enc_map(es)[0]);
    assert(inp[pos] == '{');
    if es.len() == 0 {
        assert(enc_entries(es).len() == 0);
        assert(inp.subrange(pos, all)[1] == enc_map(es)[1]);
        assert(inp[pos + 1] == '}');
        assert(es =~= Seq::<(Seq<char>, Seq<Seq<char>>)>::empty());
    } else {
        assert(inp.subrange(pos, all)[1] == enc_map(es)[1]);
        if es.len() == 1 {
            assert(enc_entries(es) == enc_entry(es[0]));
            assert(enc_map(es)[1] == enc_entry(es[0])[0]);
        } else {
            assert(enc_entries(es) == enc_entry(es[0]) + seq![','] + enc_entries(
                es.drop_first(),
            ));
            assert(enc_map(es)[1] == enc_entry(es[0])[0]);
        }
        assert(enc_entry(es[0])[0] == enc_string(es[0].0)[0]);
        assert(inp[pos + 1] == '"');
        lemma_sub_subrange(inp, pos, all, pos + 1, all);
        assert(inp.subrange(pos, all).subrange(1, all - pos) =~= enc_entries(es) + seq!['}']);
        assert(inp.subrange(pos + 1, all) == enc_entries(es) + seq!['}']);
        lemma_sp_map_items_complete(inp, pos + 1, es);
    }
}

/// Law: a saved registry document always parses back to exactly the entries
/// that were saved — same hosts, in the same order, each with the same
/// ordered container list; and the document a well-formed registry saves is
/// always accepted by the loader.
pub proof fn lemma_save_load_round_trip(es: Seq<(Seq<char>, Seq<Seq<char>>)>)
    ensures
        sp_doc(enc_doc(es)) == Some(es),
        keys_unique(es) ==> doc_valid(enc_doc(es)),
{
    let inp = enc_doc(es);
    let key = "containers"@;
    let e: int = 1 + enc_string(key).len() as int;
    let e2: int = e + 1 + enc_map(es).len() as int;
    assert(inp.len() == e2 + 1);
    assert(inp[0] == '{');
    assert(inp.subrange(1, e) =~= enc_string(key));
    lemma_sp_string_complete(inp, 1, key);
    assert(inp[e] == ':');
    assert(inp.subrange(e + 1, e2) =~= enc_map(es));
    lemma_sp_map_complete(inp, e + 1, es);
    assert(inp[e2] == '}');
    assert(sp_doc(inp) == Some(es));
}

} // verus!
