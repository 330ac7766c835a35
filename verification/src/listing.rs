//! The printed form of the registry: a header line, then one line per
//! stored host with its quoted container names in order.

use vstd::prelude::*;
use vstd::string::*;
use crate::codec::{enc_string, encode_string_into};
use crate::registry::HostRegistry;

verus! {

/// The header line above the listing.
pub open spec fn listing_header() -> Seq<char> {
    "Stored containers by SSH name:\n"@
}

/// A host's container names, quoted and comma-separated.
pub open spec fn render_containers(cs: Seq<Seq<char>>) -> Seq<char>
    decreases cs.len(),
{
    if cs.len() == 0 {
        Seq::empty()
    } else if cs.len() == 1 {
        enc_string(cs[0])
    } else {
        enc_string(cs[0]) + ", "@ + render_containers(cs.drop_first())
    }
}

/// One listing line: the host, then its bracketed container names.
pub open spec fn render_entry(e: (Seq<char>, Seq<Seq<char>>)) -> Seq<char> {
    "- "@ + e.0 + ": ["@ + render_containers(e.1) + "]\n"@
}

/// The listing lines of all entries, in registry order.
pub open spec fn render_entries(es: Seq<(Seq<char>, Seq<Seq<char>>)>) -> Seq<char>
    decreases es.len(),
{
    if es.len() == 0 {
        Seq::empty()
    } else {
        render_entry(es[0]) + render_entries(es.drop_first())
    }
}

/// The whole printed listing: the header, then the entry lines.  An empty
/// registry prints the header and nothing else.
pub open spec fn listing_spec(es: Seq<(Seq<char>, Seq<Seq<char>>)>) -> Seq<char> {
    listing_header() + render_entries(es)
}

proof fn lemma_render_containers_snoc(cs: Seq<Seq<char>>, v: Seq<char>)
    requires
        cs.len() >= 1,
    ensures
        render_containers(cs.push(v)) == render_containers(cs) + ", "@ + enc_string(v),
    decreases cs.len(),
{
    let p = cs.push(v);
    if cs.len() == 1 {
        assert(p.drop_first() =~= seq![v]);
        assert(render_containers(seq![v]) == enc_string(v));
        assert(p[0] == cs[0]);
        assert(render_containers(p) =~= render_containers(cs) + ", "@ + enc_string(v));
    } else {
        lemma_render_containers_snoc(cs.drop_first(), v);
        assert(p[0] == cs[0]);
        assert(p.drop_first() =~= cs.drop_first().push(v));
        assert(render_containers(p) == enc_string(cs[0]) + ", "@ + render_containers(
            cs.drop_first().push(v),
        ));
        assert(render_containers(p) =~= render_containers(cs) + ", "@ + enc_string(v));
    }
}

proof fn lemma_render_entries_snoc(es: Seq<(Seq<char>, Seq<Seq<char>>)>, en: (Seq<char>, Seq<Seq<char>>))
    ensures
        render_entries(es.push(en)) == render_entries(es) + render_entry(en),
    decreases es.len(),
{
    let p = es.push(en);
    if es.len() == 0 {
        assert(p[0] == en);
        assert(p.drop_first() =~= Seq::<(Seq<char>, Seq<Seq<char>>)>::empty());
        assert(render_entries(Seq::<(Seq<char>, Seq<Seq<char>>)>::empty())
            == Seq::<char>::empty());
        assert(render_entries(p) == render_entry(en) + render_entries(p.drop_first()));
        assert(render_entries(p) =~= render_entries(es) + render_entry(en));
    } else {
        lemma_render_entries_snoc(es.drop_first(), en);
        assert(p[0] == es[0]);
        assert(p.drop_first() =~= es.drop_first().push(en));
        assert(render_entries(p) == render_entry(es[0]) + render_entries(
            es.drop_first().push(en),
        ));
        assert(render_entries(p) =~= render_entries(es) + render_entry(en));
    }
}

/// Renders the listing that the `list` action prints: the header, then one
/// line per stored host in order.
pub fn render_listing(reg: &HostRegistry) -> (r: String)
    ensures
        r@ == listing_spec(reg@),
{
    let ghost es = reg@;
    let mut out = String::from_str("Stored containers by SSH name:\n");
    proof {
        assert(es.take(0) =~= Seq::<(Seq<char>, Seq<Seq<char>>)>::empty());
        assert(out@ =~= listing_header() + render_entries(es.take(0)));
    }
    let n = reg.entries.len();
    let mut i: usize = 0;
    while i < n
        invariant
            i <= n,
            n == reg.entries@.len(),
            es == reg@,
            es.len() == n,
            out@ == listing_header() + render_entries(es.take(i as int)),
        decreases n - i,
    {
        let ghost outer_prefix = es.take(i as int);
        let ghost en = es[i as int];
        proof {
            assert(en == reg.entries@[i as int]@);
        }
        out.append("- ");
        out.append(reg.entries[i].host.as_str());
        out.append(": [");
        let ghost base = out@;
        let cn = reg.entries[i].containers.len();
        let ghost cs = en.1;
        proof {
            assert(cs == reg.entries@[i as int].containers@.map_values(|c: String| c@));
            if cn == 0 {
                assert(render_containers(cs.take(0)) == Seq::<char>::empty());
                assert(out@ =~= base + render_containers(cs.take(0)));
            }
        }
        if cn > 0 {
            encode_string_into(&mut out, reg.entries[i].containers[0].as_str());
            proof {
                assert(cs.take(1) =~= seq![cs[0]]);
                assert(render_containers(cs.take(1)) == enc_string(cs[0]));
                assert(cs[0] == reg.entries@[i as int].containers@[0]@);
                assert(out@ =~= base + render_containers(cs.take(1)));
            }
            let mut j: usize = 1;
            while j < cn
                invariant
                    1 <= j <= cn,
                    i < reg.entries@.len(),
                    cn == reg.entries@[i as int].containers@.len(),
                    cs == reg.entries@[i as int].containers@.map_values(|c: String| c@),
                    cs.len() == cn,
                    out@ == base + render_containers(cs.take(j as int)),
                decreases cn - j,
            {
                let ghost inner_prefix = cs.take(j as int);
                out.append(", ");
                encode_string_into(&mut out, reg.entries[i].containers[j].as_str());
                proof {
                    assert(cs[j as int] == reg.entries@[i as int].containers@[j as int]@);
                    lemma_render_containers_snoc(inner_prefix, cs[j as int]);
                    assert(cs.take(j + 1) =~= inner_prefix.push(cs[j as int]));
                    assert(out@ =~= base + render_containers(cs.take(j + 1)));
                }
                j += 1;
            }
            proof {
                assert(cs.take(cn as int) =~= cs);
            }
        } else {
            proof {
                assert(cs =~= Seq::<Seq<char>>::empty());
                assert(render_containers(cs) == Seq::<char>::empty());
            }
        }
        out.append("]\n");
        proof {
            lemma_render_entries_snoc(outer_prefix, en);
            assert(es.take(i + 1) =~= outer_prefix.push(en));
            assert(out@ =~= listing_header() + render_entries(es.take(i + 1)));
        }
        i += 1;
    }
    proof {
        assert(es.take(n as int) =~= es);
    }
    out
}

} // verus!
