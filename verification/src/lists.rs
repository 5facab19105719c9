//! Lists of texts that grow.
use vstd::prelude::*;

use crate::text;
use crate::text::{copy_text, list_contains};

verus! {

broadcast use crate::text::lemma_texts_push;

/// `out` with the texts of `append` that are not in it yet, each once.
pub open spec fn appended(out: Seq<Seq<char>>, append: Seq<Seq<char>>) -> Seq<Seq<char>>
    decreases append.len(),
{
    if append.len() == 0 {
        out
    } else {
        let init = appended(out, append.drop_last());
        if init.contains(append.last()) {
            init
        } else {
            init.push(append.last())
        }
    }
}

/// Appends the texts that are not there yet.
pub fn append_new(out: &mut Vec<String>, append: &Vec<String>)
    ensures
        text::texts(final(out)@) == appended(text::texts(old(out)@), text::texts(append@)),
{
    let ghost start = text::texts(out@);
    let ghost t = text::texts(append@);
    let mut i: usize = 0;
    while i < append.len()
        invariant
            i <= append@.len(),
            t == text::texts(append@),
            text::texts(out@) == appended(start, t.take(i as int)),
        decreases append@.len() - i,
    {
        assert(t.take(i + 1).drop_last() =~= t.take(i as int));
        assert(t.take(i + 1).last() == append@[i as int]@);
        if !list_contains(out, append[i].as_str()) {
            out.push(copy_text(append[i].as_str()));
        }
        i = i + 1;
    }
    assert(t.take(t.len() as int) =~= t);
}

/// Appends every text of `more`.
pub fn extend_texts(out: &mut Vec<String>, more: &Vec<String>)
    ensures
        text::texts(final(out)@) == text::texts(old(out)@) + text::texts(more@),
{
    let ghost start = text::texts(out@);
    let ghost t = text::texts(more@);
    let mut i: usize = 0;
    while i < more.len()
        invariant
            i <= more@.len(),
            t == text::texts(more@),
            text::texts(out@) =~= start + t.take(i as int),
        decreases more@.len() - i,
    {
        out.push(copy_text(more[i].as_str()));
        i = i + 1;
    }
    assert(t.take(t.len() as int) =~= t);
}

/// Appending keeps the texts that are there, in their order; it adds every
/// text of the list that is missing and none that is there already.
pub proof fn law_appended(out: Seq<Seq<char>>, append: Seq<Seq<char>>)
    ensures
        appended(out, append).len() >= out.len(),
        appended(out, append).take(out.len() as int) == out,
        forall|i: int|
            0 <= i < append.len() ==> appended(out, append).contains(#[trigger] append[i]),
        forall|i: int, j: int|
            0 <= i < j < appended(out, append).len() && out.len() <= j ==> #[trigger] appended(
                out,
                append,
            )[i] != #[trigger] appended(out, append)[j],
        forall|j: int|
            out.len() <= j < appended(out, append).len() ==> append.contains(
                #[trigger] appended(out, append)[j],
            ),
    decreases append.len(),
{
    let r = appended(out, append);
    if append.len() == 0 {
        assert(r.take(out.len() as int) =~= out);
    } else {
        let list = append.drop_last();
        let init = appended(out, list);
        law_appended(out, list);
        assert(r.take(out.len() as int) =~= out) by {
            assert(init.take(out.len() as int) =~= out);
            assert forall|k: int| 0 <= k < out.len() implies r[k] == out[k] by {
                assert(init.take(out.len() as int)[k] == init[k]);
            }
        }
        assert forall|i: int| 0 <= i < append.len() implies r.contains(#[trigger] append[i]) by {
            if i < list.len() {
                assert(init.contains(list[i]));
                let k = choose|k: int| 0 <= k < init.len() && init[k] == list[i];
                assert(r[k] == append[i]);
            } else if init.contains(append.last()) {
                let k = choose|k: int| 0 <= k < init.len() && init[k] == append.last();
                assert(r[k] == append[i]);
            } else {
                assert(r[r.len() - 1] == append[i]);
            }
        }
        assert forall|i: int, j: int| 0 <= i < j < r.len() && out.len() <= j implies #[trigger] r[i]
            != #[trigger] r[j] by {
            if j < init.len() {
                assert(r[i] == init[i] && r[j] == init[j]);
            } else {
                assert(init[i] == r[i]);
            }
        }
        assert forall|j: int| out.len() <= j < r.len() implies append.contains(#[trigger] r[j]) by {
            if j < init.len() {
                assert(list.contains(init[j]));
                let k = choose|k: int| 0 <= k < list.len() && list[k] == init[j];
                assert(append[k] == r[j]);
            } else {
                assert(append[append.len() - 1] == r[j]);
            }
        }
    }
}

} // verus!
