//! The tally of a run over a link list.
use vstd::prelude::*;

use crate::text::{decimal_nat, usize_to_decimal};

verus! {

/// What became of one link of the list.
#[derive(Debug, Clone, Copy, PartialEq, Eq, Structural)]
pub enum LinkOutcome {
    /// The media and its tags were saved.
    Saved,
    /// The page named media that could not be downloaded.
    Failed,
    /// The page named no media.
    NotFound,
    /// The link belongs to no site that the readers know.
    Skipped,
}

/// The tally of a run: how many links were saved, and the links (with their
/// position in the list) that failed, had no media, or were skipped, in the
/// order they were met.
#[derive(Debug)]
pub struct Progress {
    pub success: usize,
    pub failed: Vec<(usize, String)>,
    pub not_found: Vec<(usize, String)>,
    pub skipped: Vec<(usize, String)>,
}

/// The model of a [`Progress`].
pub struct ProgressView {
    pub success: nat,
    pub failed: Seq<(usize, Seq<char>)>,
    pub not_found: Seq<(usize, Seq<char>)>,
    pub skipped: Seq<(usize, Seq<char>)>,
}

/// The view of a list of (position, link) entries.
pub open spec fn entry_views(v: Seq<(usize, String)>) -> Seq<(usize, Seq<char>)> {
    v.map_values(|e: (usize, String)| (e.0, e.1@))
}

impl View for Progress {
    type V = ProgressView;

    open spec fn view(&self) -> ProgressView {
        ProgressView {
            success: self.success as nat,
            failed: entry_views(self.failed@),
            not_found: entry_views(self.not_found@),
            skipped: entry_views(self.skipped@),
        }
    }
}

impl ProgressView {
    /// Nothing tallied yet.
    pub open spec fn empty() -> ProgressView {
        ProgressView {
            success: 0,
            failed: Seq::empty(),
            not_found: Seq::empty(),
            skipped: Seq::empty(),
        }
    }

    /// The tally after the link at `position` ended with `outcome`.
    pub open spec fn record(self, position: usize, link: Seq<char>, outcome: LinkOutcome) -> ProgressView {
        match outcome {
            LinkOutcome::Saved => ProgressView { success: self.success + 1, ..self },
            LinkOutcome::Failed => ProgressView { failed: self.failed.push((position, link)), ..self },
            LinkOutcome::NotFound => ProgressView {
                not_found: self.not_found.push((position, link)),
                ..self
            },
            LinkOutcome::Skipped => ProgressView { skipped: self.skipped.push((position, link)), ..self },
        }
    }

    /// The number of links tallied.
    pub open spec fn total(self) -> nat {
        self.success + self.failed.len() + self.not_found.len() + self.skipped.len()
    }

    /// No link failed, lacked media or was skipped.
    pub open spec fn all_succeeded(self) -> bool {
        self.failed.len() == 0 && self.not_found.len() == 0 && self.skipped.len() == 0
    }
}

impl Progress {
    /// An empty tally.
    pub fn new() -> (r: Progress)
        ensures
            r@ == ProgressView::empty(),
    {
        let r = Progress { success: 0, failed: Vec::new(), not_found: Vec::new(), skipped: Vec::new() };
        assert(r@.failed =~= Seq::<(usize, Seq<char>)>::empty());
        assert(r@.not_found =~= Seq::<(usize, Seq<char>)>::empty());
        assert(r@.skipped =~= Seq::<(usize, Seq<char>)>::empty());
        r
    }

    /// Tallies the link at `position`, which ended with `outcome`.
    pub fn record(&mut self, position: usize, link: &str, outcome: LinkOutcome)
        requires
            outcome == LinkOutcome::Saved ==> old(self).success < usize::MAX,
        ensures
            final(self)@ == old(self)@.record(position, link@, outcome),
    {
        let entry = (position, link.to_owned());
        match outcome {
            LinkOutcome::Saved => {
                self.success = self.success + 1;
            },
            LinkOutcome::Failed => {
                let ghost before = self.failed@;
                self.failed.push(entry);
                assert(entry_views(self.failed@) =~= entry_views(before).push((position, link@)));
            },
            LinkOutcome::NotFound => {
                let ghost before = self.not_found@;
                self.not_found.push(entry);
                assert(entry_views(self.not_found@) =~= entry_views(before).push((position, link@)));
            },
            LinkOutcome::Skipped => {
                let ghost before = self.skipped@;
                self.skipped.push(entry);
                assert(entry_views(self.skipped@) =~= entry_views(before).push((position, link@)));
            },
        }
    }

    /// Whether every link tallied was saved.
    pub fn all_succeeded(&self) -> (b: bool)
        ensures
            b == self@.all_succeeded(),
    {
        self.failed.len() == 0 && self.not_found.len() == 0 && self.skipped.len() == 0
    }
}

/// The name under which the media and the tags of the link at `position`
/// are saved: the position counted from `start`, in decimal.
pub fn save_name(position: usize, start: usize) -> (r: String)
    requires
        position + start <= usize::MAX,
    ensures
        r@ == decimal_nat((position + start) as nat),
{
    usize_to_decimal(position + start)
}

/// Each link that is tallied is counted once, under one outcome.
pub proof fn law_record_counts_once(
    p: ProgressView,
    position: usize,
    link: Seq<char>,
    outcome: LinkOutcome,
)
    ensures
        p.record(position, link, outcome).total() == p.total() + 1,
        outcome == LinkOutcome::Saved <==> p.record(position, link, outcome).success == p.success + 1,
{
}

/// A run is reported as fully successful exactly when every link it tallied was saved.
pub proof fn law_all_succeeded_iff_all_saved(p: ProgressView)
    ensures
        p.all_succeeded() <==> p.total() == p.success,
{
}

} // verus!
