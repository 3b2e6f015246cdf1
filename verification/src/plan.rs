//! Building a rename plan: one `(from, to)` pair per directory entry,
//! in sorted order of the original names.

use vstd::prelude::*;
use vstd::relations::sorted_by;
use crate::lines::{split_into_lines, split_lines};
use crate::numeral::{dec_rep, decimal_string, lemma_dec_rep_injective};
use crate::order::{lex_leq, sort_names, views};
use crate::template::{render, render_spec, valid_as, lemma_render_injective, Placeholder};

verus! {

/// One step of a run: the entry now called `from` is to be renamed `to`.
pub struct RenamePair {
    pub from: String,
    pub to: String,
}

/// A failure of a renaming run.
#[derive(Debug)]
pub enum RunError {
    /// The list file could not be read.
    FileRead,
    /// The directory entries could not be read.
    DirRead,
    /// The list file has a different number of lines than the directory
    /// has entries; nothing was renamed.
    CountMismatch,
    /// An individual rename failed; the message describes the underlying
    /// cause.  Entries renamed before the failure stay renamed.
    Rename(String),
}

impl RunError {
    /// The single human-readable line reported for this error.
    pub fn message(&self) -> (r: String)
        ensures
            self is FileRead ==> r@ == "Failed to read the input file"@,
            self is DirRead ==> r@ == "Failed to read the directory entries"@,
            self is CountMismatch ==> r@
                == "The number of lines in the input file is different than the number of files in this directory"@,
            self matches RunError::Rename(m) ==> r@ == "Failed to rename files: "@ + m@,
    {
        match self {
            RunError::FileRead => String::from_str("Failed to read the input file"),
            RunError::DirRead => String::from_str("Failed to read the directory entries"),
            RunError::CountMismatch => String::from_str(
                "The number of lines in the input file is different than the number of files in this directory",
            ),
            RunError::Rename(m) => String::from_str("Failed to rename files: ").concat(
                m.as_str(),
            ),
        }
    }
}

/// The original names of a plan's pairs.
pub open spec fn froms(ps: Seq<RenamePair>) -> Seq<Seq<char>> {
    ps.map_values(|p: RenamePair| p.from@)
}

/// The target names of a plan's pairs.
pub open spec fn tos(ps: Seq<RenamePair>) -> Seq<Seq<char>> {
    ps.map_values(|p: RenamePair| p.to@)
}

/// A correct plan for an `{id}` run over entries `names`: every entry
/// appears exactly once as a source, sources come in lexicographic
/// order, and the entry at position `i` is renamed to the template with
/// `{id}` replaced by the decimal numeral `i + 1`.
pub open spec fn index_plan_ok(fmt: Seq<char>, names: Seq<Seq<char>>, plan: Seq<RenamePair>) -> bool {
    &&& plan.len() == names.len()
    &&& sorted_by(froms(plan), lex_leq())
    &&& froms(plan).to_multiset() == names.to_multiset()
    &&& forall|i: int|
        0 <= i < plan.len() ==> tos(plan)[i] == render_spec(
            fmt,
            Placeholder::Id,
            dec_rep((i + 1) as nat),
        )
}

/// A correct plan for an `{s}` run: as for `{id}` runs, except that the
/// entry at position `i` is renamed to the template with `{s}` replaced
/// by record `i` of the list file.
pub open spec fn list_plan_ok(
    fmt: Seq<char>,
    names: Seq<Seq<char>>,
    records: Seq<Seq<char>>,
    plan: Seq<RenamePair>,
) -> bool {
    &&& plan.len() == names.len()
    &&& sorted_by(froms(plan), lex_leq())
    &&& froms(plan).to_multiset() == names.to_multiset()
    &&& forall|i: int|
        0 <= i < plan.len() ==> tos(plan)[i] == render_spec(
            fmt,
            Placeholder::Substitution,
            records[i],
        )
}

proof fn lemma_pairs_push(ps: Seq<RenamePair>, p: RenamePair)
    ensures
        froms(ps.push(p)) =~= froms(ps).push(p.from@),
        tos(ps.push(p)) =~= tos(ps).push(p.to@),
{
}

/// Plan an `{id}` run: number the sorted entries from one upward.
pub fn plan_with_index(fmt: &str, names: Vec<String>) -> (r: Vec<RenamePair>)
    requires
        valid_as(fmt@, Placeholder::Id),
    ensures
        index_plan_ok(fmt@, views(names@), r@),
{
    let ghost names0 = names@;
    let sorted = sort_names(names);
    let mut out: Vec<RenamePair> = Vec::new();
    let mut i: usize = 0;
    proof {
        assert(froms(out@) =~= views(sorted@).subrange(0, 0));
    }
    while i < sorted.len()
        invariant
            i <= sorted@.len(),
            valid_as(fmt@, Placeholder::Id),
            out@.len() == i,
            sorted_by(views(sorted@), lex_leq()),
            views(sorted@).to_multiset() == views(names0).to_multiset(),
            views(sorted@).len() == views(names0).len(),
            froms(out@) == views(sorted@).subrange(0, i as int),
            forall|t: int|
                0 <= t < i ==> tos(out@)[t] == render_spec(
                    fmt@,
                    Placeholder::Id,
                    dec_rep((t + 1) as nat),
                ),
        decreases sorted@.len() - i,
    {
        let num = decimal_string((i + 1) as u64);
        let to = render(fmt, Placeholder::Id, num.as_str());
        let from = sorted[i].clone();
        let ghost out_before = out@;
        out.push(RenamePair { from, to });
        proof {
            lemma_pairs_push(out_before, out@.last());
            assert(froms(out@) =~= views(sorted@).subrange(0, i + 1));
        }
        i = i + 1;
    }
    proof {
        assert(views(sorted@).subrange(0, sorted@.len() as int) =~= views(sorted@));
        assert(froms(out@).to_multiset() == views(names0).to_multiset());
        assert forall|t1: int, t2: int| 0 <= t1 < t2 < out@.len() implies lex_leq()(
            froms(out@)[t1],
            froms(out@)[t2],
        ) by {
            assert(froms(out@)[t1] == views(sorted@)[t1]);
            assert(froms(out@)[t2] == views(sorted@)[t2]);
        }
    }
    out
}

/// Plan an `{s}` run: pair the records of the list file with the sorted
/// entries, or report the count mismatch without planning any rename.
pub fn plan_with_list(fmt: &str, names: Vec<String>, content: &str) -> (r: Result<
    Vec<RenamePair>,
    RunError,
>)
    requires
        valid_as(fmt@, Placeholder::Substitution),
    ensures
        r is Err <==> split_lines(content@).len() != names@.len(),
        r matches Err(e) ==> e is CountMismatch,
        r matches Ok(plan) ==> list_plan_ok(
            fmt@,
            views(names@),
            split_lines(content@),
            plan@,
        ),
{
    let ghost names0 = names@;
    let records = split_into_lines(content);
    let sorted = sort_names(names);
    if records.len() != sorted.len() {
        return Err(RunError::CountMismatch);
    }
    let mut out: Vec<RenamePair> = Vec::new();
    let mut i: usize = 0;
    proof {
        assert(froms(out@) =~= views(sorted@).subrange(0, 0));
    }
    while i < sorted.len()
        invariant
            i <= sorted@.len(),
            valid_as(fmt@, Placeholder::Substitution),
            out@.len() == i,
            records@.len() == sorted@.len(),
            views(records@) == split_lines(content@),
            sorted_by(views(sorted@), lex_leq()),
            views(sorted@).to_multiset() == views(names0).to_multiset(),
            views(sorted@).len() == views(names0).len(),
            froms(out@) == views(sorted@).subrange(0, i as int),
            forall|t: int|
                0 <= t < i ==> tos(out@)[t] == render_spec(
                    fmt@,
                    Placeholder::Substitution,
                    split_lines(content@)[t],
                ),
        decreases sorted@.len() - i,
    {
        let to = render(fmt, Placeholder::Substitution, records[i].as_str());
        let from = sorted[i].clone();
        let ghost out_before = out@;
        out.push(RenamePair { from, to });
        proof {
            lemma_pairs_push(out_before, out@.last());
            assert(froms(out@) =~= views(sorted@).subrange(0, i + 1));
            assert(views(records@)[i as int] == records@[i as int]@);
        }
        i = i + 1;
    }
    proof {
        assert(views(sorted@).subrange(0, sorted@.len() as int) =~= views(sorted@));
        assert forall|t1: int, t2: int| 0 <= t1 < t2 < out@.len() implies lex_leq()(
            froms(out@)[t1],
            froms(out@)[t2],
        ) by {
            assert(froms(out@)[t1] == views(sorted@)[t1]);
            assert(froms(out@)[t2] == views(sorted@)[t2]);
        }
    }
    Ok(out)
}

/// The target names of an `{id}` plan never collide: distinct positions
/// get distinct numerals, and rendering is injective in the substituted
/// value.
pub proof fn lemma_index_targets_distinct(
    fmt: Seq<char>,
    names: Seq<Seq<char>>,
    plan: Seq<RenamePair>,
)
    requires
        valid_as(fmt, Placeholder::Id),
        index_plan_ok(fmt, names, plan),
    ensures
        forall|i: int, j: int| 0 <= i < j < plan.len() ==> tos(plan)[i] != tos(plan)[j],
{
    assert forall|i: int, j: int| 0 <= i < j < plan.len() implies tos(plan)[i] != tos(
        plan,
    )[j] by {
        if tos(plan)[i] == tos(plan)[j] {
            lemma_render_injective(
                fmt,
                Placeholder::Id,
                dec_rep((i + 1) as nat),
                dec_rep((j + 1) as nat),
            );
            lemma_dec_rep_injective((i + 1) as nat, (j + 1) as nat);
        }
    }
}

} // verus!
