//! Directory listings: an entry is a name together with whether it is a
//! subdirectory, and a listing is handed on in lexicographic order of the
//! names.

use vstd::prelude::*;
use vstd::multiset::Multiset;

verus! {

/// One immediate entry of the directory being organized.
pub struct Entry {
    pub name: String,
    pub is_dir: bool,
}

/// The mathematical image of an entry.
pub struct EntryView {
    pub name: Seq<char>,
    pub is_dir: bool,
}

impl View for Entry {
    type V = EntryView;

    open spec fn view(&self) -> EntryView {
        EntryView { name: self.name@, is_dir: self.is_dir }
    }
}

/// Lexicographic order on character sequences, by code point.
pub open spec fn lex_le(a: Seq<char>, b: Seq<char>) -> bool
    decreases a.len(),
{
    if a.len() == 0 {
        true
    } else if b.len() == 0 {
        false
    } else if (a[0] as u32) < (b[0] as u32) {
        true
    } else if (b[0] as u32) < (a[0] as u32) {
        false
    } else {
        lex_le(a.drop_first(), b.drop_first())
    }
}

/// Any two names are ordered one way or the other.
pub proof fn lemma_lex_le_total(a: Seq<char>, b: Seq<char>)
    ensures
        lex_le(a, b) || lex_le(b, a),
    decreases a.len(),
{
    if a.len() > 0 && b.len() > 0 && (a[0] as u32) == (b[0] as u32) {
        lemma_lex_le_total(a.drop_first(), b.drop_first());
    }
}

/// The order holds of every name and itself.
pub proof fn lemma_lex_le_refl(a: Seq<char>)
    ensures
        lex_le(a, a),
    decreases a.len(),
{
    if a.len() > 0 {
        lemma_lex_le_refl(a.drop_first());
    }
}

/// The order is transitive.
pub proof fn lemma_lex_le_trans(a: Seq<char>, b: Seq<char>, c: Seq<char>)
    requires
        lex_le(a, b),
        lex_le(b, c),
    ensures
        lex_le(a, c),
    decreases a.len(),
{
    if a.len() > 0 {
        assert(b.len() > 0);
        assert(c.len() > 0);
        assert((a[0] as u32) <= (b[0] as u32));
        assert((b[0] as u32) <= (c[0] as u32));
        if !((a[0] as u32) < (c[0] as u32)) {
            assert((a[0] as u32) == (b[0] as u32) && (b[0] as u32) == (c[0] as u32));
            lemma_lex_le_trans(a.drop_first(), b.drop_first(), c.drop_first());
        }
    }
}

/// Whether `a` comes no later than `b` in lexicographic order.
pub fn str_lex_le(a: &str, b: &str) -> (r: bool)
    ensures
        r == lex_le(a@, b@),
{
    let na = a.unicode_len();
    let nb = b.unicode_len();
    let mut i: usize = 0;
    proof {
        assert(a@.skip(0) =~= a@);
        assert(b@.skip(0) =~= b@);
    }
    while i < na && i < nb
        invariant
            na == a@.len(),
            nb == b@.len(),
            0 <= i <= na,
            i <= nb,
            lex_le(a@, b@) == lex_le(a@.skip(i as int), b@.skip(i as int)),
        decreases na - i,
    {
        let ca = a.get_char(i);
        let cb = b.get_char(i);
        if (ca as u32) < (cb as u32) {
            return true;
        }
        if (cb as u32) < (ca as u32) {
            return false;
        }
        proof {
            assert(a@.skip(i as int).drop_first() =~= a@.skip(i + 1));
            assert(b@.skip(i as int).drop_first() =~= b@.skip(i + 1));
        }
        i += 1;
    }
    proof {
        if i == na {
            assert(a@.skip(i as int) =~= Seq::<char>::empty());
        } else {
            assert(b@.skip(i as int) =~= Seq::<char>::empty());
            assert(a@.skip(i as int).len() > 0);
        }
    }
    i >= na
}

/// The names appear in lexicographic order.
pub open spec fn sorted_by_name(s: Seq<Entry>) -> bool {
    forall|i: int, j: int| 0 <= i < j < s.len() ==> lex_le(s[i]@.name, s[j]@.name)
}

/// The listing in lexicographic order of the names, holding exactly the
/// entries that came in.
pub fn sort_entries(v: Vec<Entry>) -> (r: Vec<Entry>)
    ensures
        sorted_by_name(r@),
        r@.to_multiset() == v@.to_multiset(),
{
    broadcast use vstd::seq_lib::group_to_multiset_ensures;

    let mut rest = v;
    let mut out: Vec<Entry> = Vec::new();
    let ghost all = rest@;
    proof {
        assert(out@.to_multiset().add(rest@.to_multiset()) =~= all.to_multiset());
    }
    while rest.len() > 0
        invariant
            out@.to_multiset().add(rest@.to_multiset()) == all.to_multiset(),
            sorted_by_name(out@),
            forall|p: int, q: int|
                #![trigger out@[p], rest@[q]]
                0 <= p < out@.len() && 0 <= q < rest@.len() ==> lex_le(
                    out@[p]@.name,
                    rest@[q]@.name,
                ),
        decreases rest.len(),
    {
        let mut m: usize = 0;
        let mut j: usize = 1;
        proof {
            lemma_lex_le_refl(rest@[0]@.name);
        }
        while j < rest.len()
            invariant
                0 <= m < rest@.len(),
                m < j <= rest@.len(),
                forall|k: int| 0 <= k < j ==> lex_le(rest@[m as int]@.name, #[trigger] rest@[k]@.name),
            decreases rest.len() - j,
        {
            if str_lex_le(rest[j].name.as_str(), rest[m].name.as_str()) {
                proof {
                    assert forall|k: int| 0 <= k < j + 1 implies lex_le(
                        rest@[j as int]@.name,
                        #[trigger] rest@[k]@.name,
                    ) by {
                        if k < j {
                            lemma_lex_le_trans(
                                rest@[j as int]@.name,
                                rest@[m as int]@.name,
                                rest@[k]@.name,
                            );
                        } else {
                            lemma_lex_le_refl(rest@[j as int]@.name);
                        }
                    }
                }
                m = j;
            } else {
                proof {
                    lemma_lex_le_total(rest@[j as int]@.name, rest@[m as int]@.name);
                }
            }
            j += 1;
        }
        let ghost old_out = out@;
        let ghost old_rest = rest@;
        let e = rest.remove(m);
        out.push(e);
        proof {
            broadcast use vstd::seq_lib::group_to_multiset_ensures;

            assert(old_rest[m as int] == e);
            assert(old_rest.contains(e));
            assert(old_rest.to_multiset().count(e) > 0);
            assert(rest@ == old_rest.remove(m as int));
            assert(rest@.to_multiset() =~= old_rest.to_multiset().remove(e));
            assert(out@ == old_out.push(e));
            assert(out@.to_multiset() =~= old_out.to_multiset().insert(e));
            assert(out@.to_multiset().add(rest@.to_multiset()) =~= all.to_multiset()) by {
                assert(forall|x: Entry|
                    #[trigger] out@.to_multiset().add(rest@.to_multiset()).count(x)
                        == old_out.to_multiset().add(old_rest.to_multiset()).count(x));
            }
            assert forall|p: int, q: int|
                0 <= p < q < out@.len() implies lex_le(out@[p]@.name, out@[q]@.name) by {
                if q < out@.len() - 1 {
                    assert(out@[p] == old_out[p] && out@[q] == old_out[q]);
                } else {
                    assert(out@[q] == e);
                    if p < out@.len() - 1 {
                        assert(out@[p] == old_out[p]);
                        assert(lex_le(old_out[p]@.name, old_rest[m as int]@.name));
                    } else {
                        lemma_lex_le_refl(e@.name);
                    }
                }
            }
            assert forall|p: int, q: int|
                #![trigger out@[p], rest@[q]]
                0 <= p < out@.len() && 0 <= q < rest@.len() implies lex_le(
                out@[p]@.name,
                rest@[q]@.name,
            ) by {
                let qq = if q < m { q } else { q + 1 };
                assert(rest@[q] == old_rest[qq]);
                if p < out@.len() - 1 {
                    assert(out@[p] == old_out[p]);
                } else {
                    assert(out@[p] == e);
                    assert(lex_le(old_rest[m as int]@.name, old_rest[qq]@.name));
                }
            }
        }
    }
    proof {
        broadcast use vstd::seq_lib::group_to_multiset_ensures;

        assert(rest@.to_multiset() =~= Multiset::<Entry>::empty());
        assert(out@.to_multiset() =~= all.to_multiset());
    }
    out
}

} // verus!
