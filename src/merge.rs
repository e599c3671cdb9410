//! Merging of ranked candidate lists into one list without repeated ids.

use vstd::prelude::*;
use crate::clip::ClipItem;

verus! {

/// Some item of `s` has the id `id`.
pub open spec fn has_id(s: Seq<ClipItem>, id: Seq<char>) -> bool {
    exists|i: int| 0 <= i < s.len() && s[i].id@ == id
}

/// The items of `s` in order, each kept only where its id has not come before.
pub open spec fn dedup(s: Seq<ClipItem>) -> Seq<ClipItem>
    decreases s.len(),
{
    if s.len() == 0 {
        Seq::empty()
    } else {
        let d = dedup(s.drop_last());
        if has_id(d, s.last().id@) {
            d
        } else {
            d.push(s.last())
        }
    }
}

/// At most the first `limit` items of `s`.
pub open spec fn take_at_most(s: Seq<ClipItem>, limit: nat) -> Seq<ClipItem> {
    if s.len() <= limit {
        s
    } else {
        s.take(limit as int)
    }
}

/// The merge of a lexical and a semantic list: lexical items first, then
/// semantic ones, each id once, cut to `limit`.
pub open spec fn merged(lexical: Seq<ClipItem>, semantic: Seq<ClipItem>, limit: nat) -> Seq<ClipItem> {
    take_at_most(dedup(lexical + semantic), limit)
}

/// No two items of `s` share an id.
pub open spec fn ids_distinct(s: Seq<ClipItem>) -> bool {
    forall|i: int, j: int| 0 <= i < j < s.len() ==> s[i].id@ != s[j].id@
}

/// Whether an item of `items` has the id `id`.
pub fn contains_id(items: &Vec<ClipItem>, id: &String) -> (r: bool)
    ensures
        r == has_id(items@, id@),
{
    let mut i: usize = 0;
    while i < items.len()
        invariant
            i <= items@.len(),
            forall|k: int| 0 <= k < i ==> items@[k].id@ != id@,
        decreases items@.len() - i,
    {
        if items[i].id == *id {
            return true;
        }
        i = i + 1;
    }
    false
}

/// Appends to `out` each item of `items` in order whose id is not yet there.
/// The ids seen so far are looked up in `out` itself, so that what is proved
/// of the output is proved of the seen set too.
fn push_unseen(out: &mut Vec<ClipItem>, items: Vec<ClipItem>, Ghost(before): Ghost<Seq<ClipItem>>)
    requires
        old(out)@ == dedup(before),
    ensures
        final(out)@ == dedup(before + items@),
{
    let ghost orig = items@;
    let mut items = items;
    let ghost mut k: int = 0;
    while items.len() > 0
        invariant
            0 <= k <= orig.len(),
            items@ == orig.skip(k),
            out@ == dedup(before + orig.take(k)),
        decreases items@.len(),
    {
        let c = items.remove(0);
        proof {
            let s = before + orig.take(k + 1);
            assert(s.drop_last() =~= before + orig.take(k));
            assert(s.last() == c);
        }
        let seen = contains_id(out, &c.id);
        if !seen {
            out.push(c);
        }
        proof {
            k = k + 1;
            assert(items@ =~= orig.skip(k));
        }
    }
    assert(orig.take(k) =~= orig);
}

/// Merges lexical and semantic candidates: every lexical item first, in its
/// order, then the semantic items whose id the output does not hold yet; the
/// result is cut to `limit` items.
pub fn merge_results(lexical: Vec<ClipItem>, semantic: Vec<ClipItem>, limit: usize) -> (r: Vec<ClipItem>)
    ensures
        r@ == merged(lexical@, semantic@, limit as nat),
{
    let ghost lex = lexical@;
    let ghost sem = semantic@;
    let mut out: Vec<ClipItem> = Vec::new();
    assert(Seq::<ClipItem>::empty() + lex =~= lex);
    push_unseen(&mut out, lexical, Ghost(Seq::empty()));
    push_unseen(&mut out, semantic, Ghost(lex));
    out.truncate(limit);
    out
}

proof fn lemma_dedup_members(s: Seq<ClipItem>)
    ensures
        ids_distinct(dedup(s)),
        forall|i: int| 0 <= i < dedup(s).len() ==> s.contains(#[trigger] dedup(s)[i]),
    decreases s.len(),
{
    if s.len() > 0 {
        lemma_dedup_members(s.drop_last());
        let d = dedup(s.drop_last());
        assert forall|i: int| 0 <= i < d.len() implies s.contains(#[trigger] d[i]) by {
            let j = choose|j: int| 0 <= j < s.drop_last().len() && s.drop_last()[j] == d[i];
            assert(s[j] == d[i]);
        }
        if !has_id(d, s.last().id@) {
            assert(s[s.len() - 1] == s.last());
        }
    }
}

proof fn lemma_dedup_distinct_prefix(a: Seq<ClipItem>, b: Seq<ClipItem>)
    requires
        ids_distinct(a),
    ensures
        dedup(a + b).len() >= a.len(),
        dedup(a + b).take(a.len() as int) == a,
    decreases b.len(),
{
    if b.len() == 0 {
        assert(a + b =~= a);
        lemma_dedup_of_distinct(a);
    } else {
        lemma_dedup_distinct_prefix(a, b.drop_last());
        assert((a + b).drop_last() =~= a + b.drop_last());
    }
}

proof fn lemma_dedup_of_distinct(a: Seq<ClipItem>)
    requires
        ids_distinct(a),
    ensures
        dedup(a) == a,
    decreases a.len(),
{
    if a.len() > 0 {
        lemma_dedup_of_distinct(a.drop_last());
        if has_id(a.drop_last(), a.last().id@) {
            let i = choose|i: int| 0 <= i < a.drop_last().len() && a.drop_last()[i].id@ == a.last().id@;
            assert(a[i].id@ == a[a.len() - 1].id@);
        }
        assert(a.drop_last().push(a.last()) =~= a);
    }
}

/// No id occurs twice in a merged result.
pub proof fn lemma_merged_ids_distinct(lexical: Seq<ClipItem>, semantic: Seq<ClipItem>, limit: nat)
    ensures
        ids_distinct(merged(lexical, semantic, limit)),
{
    lemma_dedup_members(lexical + semantic);
}

/// Every item of a merged result comes from one of the two candidate lists.
pub proof fn lemma_merged_from_candidates(lexical: Seq<ClipItem>, semantic: Seq<ClipItem>, limit: nat)
    ensures
        forall|i: int| 0 <= i < merged(lexical, semantic, limit).len() ==>
            (lexical + semantic).contains(#[trigger] merged(lexical, semantic, limit)[i]),
{
    lemma_dedup_members(lexical + semantic);
}

/// Where the lexical list holds no id twice, the item at each lexical rank
/// below `limit` stands at that same position in the merged result, whether
/// or not the semantic list holds it too.
pub proof fn lemma_lexical_rank_kept(lexical: Seq<ClipItem>, semantic: Seq<ClipItem>, limit: nat, i: int)
    requires
        ids_distinct(lexical),
        0 <= i < lexical.len(),
        i < limit,
    ensures
        i < merged(lexical, semantic, limit).len(),
        merged(lexical, semantic, limit)[i] == lexical[i],
{
    lemma_dedup_distinct_prefix(lexical, semantic);
    let d = dedup(lexical + semantic);
    assert(d.take(lexical.len() as int)[i] == d[i]);
}

} // verus!
