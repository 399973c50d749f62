use vstd::prelude::*;

verus! {

/// Where a [`FileCommitBuffer`] stands in its two phases.
#[derive(Debug, Clone, Copy, PartialEq, Eq, Structural)]
pub enum CommitPhase {
    /// Prepared lines are being staged; nothing may be committed yet.
    Preparing,
    /// Every item was prepared; staged lines are handed out in order.
    Committing,
    /// Every staged line was committed.
    Done,
    /// A prepare or a commit failed; nothing more is handed out.
    Failed,
}

/// Two-phase staging buffer. In the prepare phase each prepared item is staged
/// as one line of text; only once every item was prepared are the staged lines
/// handed out, one at a time and in the order they were staged, to be
/// committed. A failure in the prepare phase leaves nothing to commit; a failure
/// in the commit phase stops the hand-out, and what was committed stays.
pub struct FileCommitBuffer {
    lines: Vec<String>,
    next: usize,
    phase: CommitPhase,
}

impl FileCommitBuffer {
    /// The staged lines, in the order they were staged.
    pub closed spec fn staged(&self) -> Seq<Seq<char>> {
        self.lines@.map_values(|l: String| l@)
    }

    /// How many staged lines were reported committed.
    pub closed spec fn committed_count(&self) -> nat {
        self.next as nat
    }

    pub closed spec fn phase_of(&self) -> CommitPhase {
        self.phase
    }

    pub closed spec fn wf(&self) -> bool {
        &&& self.next <= self.lines@.len()
        &&& self.phase == CommitPhase::Preparing ==> self.next == 0
        &&& self.phase == CommitPhase::Committing ==> self.next < self.lines@.len()
        &&& self.phase == CommitPhase::Done ==> self.next == self.lines@.len()
    }

    /// Nothing is committed during the prepare phase.
    pub proof fn lemma_preparing_commits_nothing(&self)
        requires
            self.wf(),
            self.phase_of() == CommitPhase::Preparing,
        ensures
            self.committed_count() == 0,
    {
    }

    /// An empty buffer in the prepare phase.
    pub fn new() -> (r: FileCommitBuffer)
        ensures
            r.wf(),
            r.staged() == Seq::<Seq<char>>::empty(),
            r.committed_count() == 0,
            r.phase_of() == CommitPhase::Preparing,
    {
        FileCommitBuffer { lines: Vec::new(), next: 0, phase: CommitPhase::Preparing }
    }

    /// Stages one prepared line after those already staged.
    pub fn stage(&mut self, line: String)
        requires
            old(self).wf(),
            old(self).phase_of() == CommitPhase::Preparing,
        ensures
            final(self).wf(),
            final(self).staged() == old(self).staged().push(line@),
            final(self).committed_count() == 0,
            final(self).phase_of() == CommitPhase::Preparing,
    {
        let ghost line_view = line@;
        self.lines.push(line);
        proof {
            assert(self.lines@.map_values(|l: String| l@) =~= old(self).lines@.map_values(
                |l: String| l@,
            ).push(line_view));
        }
    }

    /// Ends the prepare phase: the commit phase starts at the first staged line,
    /// or, with nothing staged, the buffer is done.
    pub fn seal(&mut self)
        requires
            old(self).wf(),
            old(self).phase_of() == CommitPhase::Preparing,
        ensures
            final(self).wf(),
            final(self).staged() == old(self).staged(),
            final(self).committed_count() == 0,
            final(self).phase_of() == if old(self).staged().len() == 0 {
                CommitPhase::Done
            } else {
                CommitPhase::Committing
            },
    {
        if self.lines.len() == 0 {
            self.phase = CommitPhase::Done;
        } else {
            self.phase = CommitPhase::Committing;
        }
    }

    /// Records a failed prepare or commit: from now on nothing is handed out.
    pub fn fail(&mut self)
        requires
            old(self).wf(),
        ensures
            final(self).wf(),
            final(self).staged() == old(self).staged(),
            final(self).committed_count() == old(self).committed_count(),
            final(self).phase_of() == CommitPhase::Failed,
    {
        self.phase = CommitPhase::Failed;
    }

    /// The staged line to commit next: there is one only in the commit phase,
    /// and it is the first line not yet committed.
    pub fn pending(&self) -> (r: Option<&String>)
        requires
            self.wf(),
        ensures
            r is Some <==> self.phase_of() == CommitPhase::Committing,
            r matches Some(l) ==> self.committed_count() < self.staged().len() && l@
                == self.staged()[self.committed_count() as int],
    {
        if self.phase == CommitPhase::Committing {
            Some(&self.lines[self.next])
        } else {
            None
        }
    }

    /// Records that the pending line was committed.
    pub fn mark_committed(&mut self)
        requires
            old(self).wf(),
            old(self).phase_of() == CommitPhase::Committing,
        ensures
            final(self).wf(),
            final(self).staged() == old(self).staged(),
            final(self).committed_count() == old(self).committed_count() + 1,
            final(self).phase_of() == if final(self).committed_count() == old(
                self,
            ).staged().len() {
                CommitPhase::Done
            } else {
                CommitPhase::Committing
            },
    {
        let n = self.lines.len();
        self.next = self.next + 1;
        if self.next == n {
            self.phase = CommitPhase::Done;
        }
    }

    pub fn phase(&self) -> (r: CommitPhase)
        ensures
            r == self.phase_of(),
    {
        self.phase
    }

    pub fn committed(&self) -> (r: usize)
        ensures
            r == self.committed_count(),
    {
        self.next
    }

    /// The staged lines, in the order they were staged.
    pub fn lines(&self) -> (r: &Vec<String>)
        ensures
            r@.map_values(|l: String| l@) == self.staged(),
    {
        &self.lines
    }
}

} // verus!
