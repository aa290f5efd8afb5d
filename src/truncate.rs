//! Cutting text to a column budget without splitting a grapheme cluster.

use vstd::prelude::*;
use unicode_segmentation::UnicodeSegmentation;
use crate::text::push_str;
use crate::width::{display_width, display_width_spec, lemma_width_extend, measurable};

verus! {

/// The extended grapheme clusters of `s`, as unicode-segmentation splits it.
pub uninterp spec fn grapheme_split(s: Seq<char>) -> Seq<Seq<char>>;

/// The clusters joined back together.
pub open spec fn concat_all(cs: Seq<Seq<char>>) -> Seq<char>
    decreases cs.len(),
{
    if cs.len() == 0 {
        Seq::empty()
    } else {
        cs[0] + concat_all(cs.drop_first())
    }
}

/// Relies on `UnicodeSegmentation::graphemes(s, true)`: it yields the
/// extended grapheme clusters of `s` as consecutive slices that cover `s`.
#[verifier::external_body]
fn graphemes_of(s: &str) -> (r: Vec<String>)
    ensures
        r@.map_values(|g: String| g@) == grapheme_split(s@),
        concat_all(r@.map_values(|g: String| g@)) == s@,
{
    UnicodeSegmentation::graphemes(s, true).map(|g| g.to_string()).collect()
}

/// Starting from `i` kept clusters, how many are kept: the next cluster is
/// taken while the joined text with it still fits in `budget` columns; the
/// first that does not fit stops it.
pub open spec fn keep_from(cs: Seq<Seq<char>>, budget: nat, i: nat) -> nat
    decreases cs.len() - i,
{
    if i >= cs.len() {
        i
    } else if display_width_spec(concat_all(cs.take(i + 1 as int))) > budget {
        i
    } else {
        keep_from(cs, budget, i + 1)
    }
}

/// How many leading clusters a budget of `budget` columns keeps.
pub open spec fn keep_count(cs: Seq<Seq<char>>, budget: nat) -> nat {
    keep_from(cs, budget, 0)
}

/// The text made of the clusters that a budget of `budget` columns keeps.
pub open spec fn truncated(cs: Seq<Seq<char>>, budget: nat) -> Seq<char> {
    concat_all(cs.take(keep_count(cs, budget) as int))
}

/// Joining splits at every cluster boundary.
pub proof fn lemma_concat_split(cs: Seq<Seq<char>>, k: int)
    requires
        0 <= k <= cs.len(),
    ensures
        concat_all(cs) == concat_all(cs.take(k)) + concat_all(cs.skip(k)),
    decreases k,
{
    if k == 0 {
        assert(cs.skip(0) =~= cs);
        assert(concat_all(cs.take(0)) =~= Seq::<char>::empty());
        assert(concat_all(cs) =~= Seq::<char>::empty() + concat_all(cs));
    } else {
        lemma_concat_split(cs.drop_first(), k - 1);
        assert(cs.take(k).drop_first() =~= cs.drop_first().take(k - 1));
        assert(cs.skip(k) =~= cs.drop_first().skip(k - 1));
        assert(cs.take(k)[0] == cs[0]);
        assert(concat_all(cs) =~= concat_all(cs.take(k)) + concat_all(cs.skip(k)));
    }
}

/// A shorter run of leading clusters is never wider.
proof fn lemma_prefix_width(cs: Seq<Seq<char>>, j: int, m: int)
    requires
        0 <= j <= m <= cs.len(),
    ensures
        display_width_spec(concat_all(cs.take(j))) <= display_width_spec(concat_all(cs.take(m))),
{
    lemma_concat_split(cs.take(m), j);
    assert(cs.take(m).take(j) =~= cs.take(j));
    lemma_width_extend(concat_all(cs.take(j)), concat_all(cs.take(m).skip(j)));
}

proof fn lemma_keep_from(cs: Seq<Seq<char>>, budget: nat, i: nat)
    requires
        i <= cs.len(),
        display_width_spec(concat_all(cs.take(i as int))) <= budget,
    ensures
        i <= keep_from(cs, budget, i) <= cs.len(),
        display_width_spec(concat_all(cs.take(keep_from(cs, budget, i) as int))) <= budget,
        keep_from(cs, budget, i) == cs.len() || display_width_spec(
            concat_all(cs.take((keep_from(cs, budget, i) + 1) as int)),
        ) > budget,
    decreases cs.len() - i,
{
    if i < cs.len() && display_width_spec(concat_all(cs.take((i + 1) as int))) <= budget {
        lemma_keep_from(cs, budget, i + 1);
    }
}

/// The kept clusters fit in the budget, and the next one would not.
pub proof fn lemma_keep_fits(cs: Seq<Seq<char>>, budget: nat)
    ensures
        keep_count(cs, budget) <= cs.len(),
        display_width_spec(truncated(cs, budget)) <= budget,
        keep_count(cs, budget) == cs.len() || display_width_spec(
            concat_all(cs.take((keep_count(cs, budget) + 1) as int)),
        ) > budget,
{
    assert(concat_all(cs.take(0)) =~= Seq::<char>::empty());
    lemma_keep_from(cs, budget, 0);
}

/// Clusters that fit in the budget when joined are all kept.
pub proof fn lemma_keep_all(cs: Seq<Seq<char>>, budget: nat)
    requires
        display_width_spec(concat_all(cs)) <= budget,
    ensures
        keep_count(cs, budget) == cs.len(),
        truncated(cs, budget) == concat_all(cs),
{
    lemma_keep_fits(cs, budget);
    let k = keep_count(cs, budget) as int;
    if k < cs.len() {
        lemma_prefix_width(cs, k + 1, cs.len() as int);
    }
    assert(cs.take(cs.len() as int) =~= cs);
}

/// A truncation fits in its budget, and truncating the kept clusters again
/// with the same budget gives the same text.
pub proof fn lemma_truncate_fits_and_idempotent(cs: Seq<Seq<char>>, budget: nat)
    ensures
        display_width_spec(truncated(cs, budget)) <= budget,
        truncated(cs.take(keep_count(cs, budget) as int), budget) == truncated(cs, budget),
{
    lemma_keep_fits(cs, budget);
    lemma_keep_all(cs.take(keep_count(cs, budget) as int), budget);
}

/// Keeps the leading clusters greedily: a cluster is appended while the
/// joined text with it still fits in `max_width` columns.
pub fn truncate_clusters(clusters: &Vec<String>, max_width: usize) -> (r: String)
    requires
        measurable(concat_all(clusters@.map_values(|g: String| g@))),
    ensures
        r@ == truncated(clusters@.map_values(|g: String| g@), max_width as nat),
{
    let ghost cs = clusters@.map_values(|g: String| g@);
    let mut out = String::new();
    let mut i: usize = 0;
    proof {
        assert(cs.take(0) =~= Seq::<Seq<char>>::empty());
        assert(concat_all(cs.take(0)) =~= Seq::<char>::empty());
    }
    while i < clusters.len()
        invariant
            cs == clusters@.map_values(|g: String| g@),
            measurable(concat_all(cs)),
            i <= clusters.len(),
            out@ == concat_all(cs.take(i as int)),
            display_width_spec(out@) <= max_width,
            keep_count(cs, max_width as nat) == keep_from(cs, max_width as nat, i as nat),
        decreases clusters.len() - i,
    {
        let mut candidate = out.clone();
        push_str(&mut candidate, clusters[i].as_str());
        proof {
            assert(cs[i as int] == clusters[i as int]@);
            lemma_concat_split(cs.take(i + 1), i as int);
            assert(cs.take(i + 1).take(i as int) =~= cs.take(i as int));
            assert(cs.take(i + 1).skip(i as int) =~= seq![cs[i as int]]);
            let single = seq![cs[i as int]];
            assert(single.drop_first() =~= Seq::<Seq<char>>::empty());
            assert(concat_all(single.drop_first()) =~= Seq::<char>::empty());
            assert(concat_all(single) =~= cs[i as int]);
            assert(candidate@ == concat_all(cs.take(i + 1)));
            lemma_concat_split(cs, i + 1);
        }
        let w = display_width(candidate.as_str());
        if w > max_width {
            return out;
        }
        out = candidate;
        i = i + 1;
    }
    out
}

/// Cuts `text` to at most `max_width` columns: the longest run of leading
/// grapheme clusters whose joined width fits; text that fits comes back whole.
pub fn truncate(text: &str, max_width: usize) -> (r: String)
    requires
        measurable(text@),
    ensures
        r@ == truncated(grapheme_split(text@), max_width as nat),
        display_width_spec(r@) <= max_width,
        exists|k: int|
            0 <= k <= grapheme_split(text@).len() && r@ == concat_all(
                #[trigger] grapheme_split(text@).take(k),
            ),
        r@.len() <= text@.len(),
        r@ == text@.take(r@.len() as int),
        display_width_spec(text@) <= max_width ==> r@ == text@,
{
    let clusters = graphemes_of(text);
    let ghost cs = grapheme_split(text@);
    let r = truncate_clusters(&clusters, max_width);
    proof {
        let k = keep_count(cs, max_width as nat) as int;
        lemma_keep_fits(cs, max_width as nat);
        lemma_concat_split(cs, k);
        assert(r@ == text@.take(r@.len() as int));
        if display_width_spec(text@) <= max_width {
            lemma_keep_all(cs, max_width as nat);
        }
    }
    r
}

} // verus!
