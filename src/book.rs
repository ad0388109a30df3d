use vstd::prelude::*;

use crate::error::UwuError;
use crate::events::{section_model, uwuify};

verus! {

broadcast use {vstd::std_specs::vec::axiom_vec_decreases_to_view, vstd::seq::axiom_seq_index_decreases};

#[verifier::external_type_specification]
#[verifier::external_body]
pub struct ExPathBuf(std::path::PathBuf);

/// A chapter of a book: a named Markdown body with nested items.
#[derive(Debug)]
pub struct Chapter {
    pub name: String,
    pub content: String,
    /// The section number, one component per level.
    pub number: Option<Vec<u32>>,
    pub sub_items: Vec<BookItem>,
    pub path: Option<std::path::PathBuf>,
    pub source_path: Option<std::path::PathBuf>,
    pub parent_names: Vec<String>,
}

/// An entry of a book's table of contents.
#[derive(Debug)]
pub enum BookItem {
    Chapter(Chapter),
    Separator,
    PartTitle(String),
}

/// Whether `n` is `o` with only the body and the nested items replaced.
pub open spec fn same_frame(o: Chapter, n: Chapter) -> bool {
    &&& n.name == o.name
    &&& n.number == o.number
    &&& n.path == o.path
    &&& n.source_path == o.source_path
    &&& n.parent_names == o.parent_names
}

/// The outcome of processing one item, its nested items included.
pub open spec fn item_outcome(it: BookItem) -> Result<(), UwuError>
    decreases it,
{
    match it {
        BookItem::Chapter(c) => match section_model(c.content@) {
            Err(e) => Err(e),
            Ok(_) => seq_outcome(c.sub_items@),
        },
        _ => Ok(()),
    }
}

/// The outcome of processing a sequence of items in order, stopping at the
/// first failure.
pub open spec fn seq_outcome(s: Seq<BookItem>) -> Result<(), UwuError>
    decreases s,
{
    if s.len() == 0 {
        Ok(())
    } else {
        match item_outcome(s[0]) {
            Err(e) => Err(e),
            Ok(_) => seq_outcome(s.subrange(1, s.len() as int)),
        }
    }
}

/// Whether `n` is what processing leaves of the item `o`: the body of a
/// chapter is rewritten and its nested items processed; on failure of the
/// body the chapter stays as it was.
pub open spec fn item_rewritten(o: BookItem, n: BookItem) -> bool
    decreases o,
{
    match o {
        BookItem::Chapter(a) => match n {
            BookItem::Chapter(b) => same_frame(a, b) && match section_model(a.content@) {
                Err(_) => b.content == a.content && b.sub_items@ == a.sub_items@,
                Ok(s) => b.content@ == s && seq_rewritten(a.sub_items@, b.sub_items@),
            },
            _ => false,
        },
        _ => n == o,
    }
}

/// Whether `n` is what processing leaves of the items `o`: each item up to
/// the first failing one is processed; those after it are untouched.
pub open spec fn seq_rewritten(o: Seq<BookItem>, n: Seq<BookItem>) -> bool
    decreases o,
{
    if o.len() == 0 {
        n.len() == 0
    } else {
        &&& n.len() == o.len()
        &&& item_rewritten(o[0], n[0])
        &&& if item_outcome(o[0]) is Err {
            n.subrange(1, n.len() as int) == o.subrange(1, o.len() as int)
        } else {
            seq_rewritten(o.subrange(1, o.len() as int), n.subrange(1, n.len() as int))
        }
    }
}

/// Processing a prefix of items that all succeed leaves the rest of the
/// outcome to the suffix.
proof fn lemma_prefix_done(o: Seq<BookItem>, n: Seq<BookItem>, i: int)
    requires
        n.len() == o.len(),
        0 <= i <= o.len(),
        forall|j: int|
            0 <= j < i ==> item_rewritten(o[j], n[j]) && #[trigger] item_outcome(o[j]) is Ok,
    ensures
        seq_rewritten(o, n) == seq_rewritten(
            o.subrange(i, o.len() as int),
            n.subrange(i, n.len() as int),
        ),
        seq_outcome(o) == seq_outcome(o.subrange(i, o.len() as int)),
    decreases i,
{
    if i == 0 {
        assert(o.subrange(0, o.len() as int) =~= o);
        assert(n.subrange(0, n.len() as int) =~= n);
    } else {
        let o1 = o.subrange(1, o.len() as int);
        let n1 = n.subrange(1, n.len() as int);
        assert(item_outcome(o[0]) is Ok);
        assert forall|j: int|
            0 <= j < i - 1 implies item_rewritten(o1[j], n1[j]) && #[trigger] item_outcome(
                o1[j],
            ) is Ok by {
            assert(o1[j] == o[j + 1]);
            assert(item_outcome(o[j + 1]) is Ok);
        }
        lemma_prefix_done(o1, n1, i - 1);
        assert(o1.subrange(i - 1, o1.len() as int) =~= o.subrange(i, o.len() as int));
        assert(n1.subrange(i - 1, n1.len() as int) =~= n.subrange(i, n.len() as int));
    }
}

/// Rewrites a chapter's body and then its nested items; a non-chapter item is
/// returned unchanged.
pub(crate) fn process_item(it: BookItem) -> (r: (BookItem, Result<(), UwuError>))
    ensures
        item_rewritten(it, r.0),
        r.1 == item_outcome(it),
    decreases it,
{
    match it {
        BookItem::Chapter(c) => {
            let Chapter { name, content, number, sub_items, path, source_path, parent_names } = c;
            match uwuify(&content) {
                Err(e) => {
                    let same = Chapter {
                        name,
                        content,
                        number,
                        sub_items,
                        path,
                        source_path,
                        parent_names,
                    };
                    (BookItem::Chapter(same), Err(e))
                },
                Ok(body) => {
                    let (subs, res) = process(sub_items);
                    let done = Chapter {
                        name,
                        content: body,
                        number,
                        sub_items: subs,
                        path,
                        source_path,
                        parent_names,
                    };
                    (BookItem::Chapter(done), res)
                },
            }
        },
        other => (other, Ok(())),
    }
}

/// Processes the items in order, depth first, and stops at the first failure;
/// the items after it are returned untouched.
pub(crate) fn process(items: Vec<BookItem>) -> (r: (Vec<BookItem>, Result<(), UwuError>))
    ensures
        seq_rewritten(items@, r.0@),
        r.1 == seq_outcome(items@),
    decreases items,
{
    let ghost orig = items@;
    let mut work = items;
    let n = work.len();
    let mut i: usize = 0;
    while i < n
        invariant
            orig == items@,
            work@.len() == n,
            orig.len() == n,
            i <= n,
            forall|j: int| i <= j < n ==> #[trigger] work@[j] == orig[j],
            forall|j: int|
                0 <= j < i ==> item_rewritten(orig[j], work@[j]) && #[trigger] item_outcome(
                    orig[j],
                ) is Ok,
        decreases n - i,
    {
        assert(work@[i as int] == orig[i as int]);
        let mut p = BookItem::Separator;
        work.set_and_swap(i, &mut p);
        assert(decreases_to!(items => items@));
        assert(decreases_to!(items@ => items@[i as int]));
        let (q, res) = process_item(p);
        let mut q = q;
        work.set_and_swap(i, &mut q);
        match res {
            Err(e) => {
                proof {
                    lemma_prefix_done(orig, work@, i as int);
                    let o2 = orig.subrange(i as int, n as int);
                    let n2 = work@.subrange(i as int, n as int);
                    assert(o2[0] == orig[i as int]);
                    assert(n2[0] == work@[i as int]);
                    assert(n2.subrange(1, n2.len() as int) =~= o2.subrange(1, o2.len() as int));
                }
                return (work, Err(e));
            },
            Ok(()) => {},
        }
        i = i + 1;
    }
    proof {
        lemma_prefix_done(orig, work@, n as int);
        assert(orig.subrange(n as int, n as int).len() == 0);
        assert(work@.subrange(n as int, n as int).len() == 0);
    }
    (work, Ok(()))
}

/// Whether two items name the same chapters in the same nesting and order.
pub open spec fn same_outline_item(o: BookItem, n: BookItem) -> bool
    decreases o,
{
    match o {
        BookItem::Chapter(a) => match n {
            BookItem::Chapter(b) => b.name == a.name && same_outline(a.sub_items@, b.sub_items@),
            _ => false,
        },
        _ => n == o,
    }
}

/// Whether two sequences of items name the same chapters in the same nesting
/// and order.
pub open spec fn same_outline(o: Seq<BookItem>, n: Seq<BookItem>) -> bool
    decreases o,
{
    if o.len() == 0 {
        n.len() == 0
    } else {
        &&& n.len() == o.len()
        &&& same_outline_item(o[0], n[0])
        &&& same_outline(o.subrange(1, o.len() as int), n.subrange(1, n.len() as int))
    }
}

proof fn lemma_outline_refl_item(it: BookItem)
    ensures
        same_outline_item(it, it),
    decreases it,
{
    if let BookItem::Chapter(a) = it {
        lemma_outline_refl(a.sub_items@);
    }
}

proof fn lemma_outline_refl(s: Seq<BookItem>)
    ensures
        same_outline(s, s),
    decreases s,
{
    if s.len() > 0 {
        lemma_outline_refl_item(s[0]);
        lemma_outline_refl(s.subrange(1, s.len() as int));
    }
}

/// Processing an item keeps the chapter names, their nesting and their order.
pub proof fn lemma_item_outline_kept(o: BookItem, n: BookItem)
    requires
        item_rewritten(o, n),
    ensures
        same_outline_item(o, n),
    decreases o,
{
    if let BookItem::Chapter(a) = o {
        if let BookItem::Chapter(b) = n {
            if section_model(a.content@) is Err {
                lemma_outline_refl(a.sub_items@);
            } else {
                lemma_outline_kept(a.sub_items@, b.sub_items@);
            }
        }
    }
}

/// Processing a sequence of items keeps the chapter names, their nesting and
/// their order, whether it succeeds or fails.
pub proof fn lemma_outline_kept(o: Seq<BookItem>, n: Seq<BookItem>)
    requires
        seq_rewritten(o, n),
    ensures
        same_outline(o, n),
    decreases o,
{
    if o.len() > 0 {
        lemma_item_outline_kept(o[0], n[0]);
        let o1 = o.subrange(1, o.len() as int);
        let n1 = n.subrange(1, n.len() as int);
        if item_outcome(o[0]) is Err {
            lemma_outline_refl(o1);
        } else {
            lemma_outline_kept(o1, n1);
        }
    }
}

/// When the item at `k` is the first whose processing fails, the run reports
/// that failure, the item at `k` is processed up to its failure, and every
/// item after it is left untouched.
pub proof fn lemma_fail_fast(o: Seq<BookItem>, n: Seq<BookItem>, k: int)
    requires
        seq_rewritten(o, n),
        0 <= k < o.len(),
        forall|j: int| 0 <= j < k ==> #[trigger] item_outcome(o[j]) is Ok,
        item_outcome(o[k]) is Err,
    ensures
        seq_outcome(o) == item_outcome(o[k]),
        item_rewritten(o[k], n[k]),
        n.subrange(k + 1, n.len() as int) == o.subrange(k + 1, o.len() as int),
    decreases k,
{
    if k > 0 {
        let o1 = o.subrange(1, o.len() as int);
        let n1 = n.subrange(1, n.len() as int);
        assert(item_outcome(o[0]) is Ok);
        assert forall|j: int| 0 <= j < k - 1 implies #[trigger] item_outcome(o1[j]) is Ok by {
            assert(o1[j] == o[j + 1]);
            assert(item_outcome(o[j + 1]) is Ok);
        }
        lemma_fail_fast(o1, n1, k - 1);
        assert(o1.subrange(k, o1.len() as int) =~= o.subrange(k + 1, o.len() as int));
        assert(n1.subrange(k, n1.len() as int) =~= n.subrange(k + 1, n.len() as int));
        assert(o1[k - 1] == o[k]);
        assert(n1[k - 1] == n[k]);
    }
}

} // verus!
