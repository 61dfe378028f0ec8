//! The state that manual and autonomous numbering share: which folder is worked
//! on, which of its files are done, how the autonomous run stands, and which
//! file is to be opened by hand. Each window keeps the revisions that it saw
//! last and asks for what is new since.

use crate::collections;
use crate::paths;
use crate::paths::FilePath;
use crate::text;
use rapidhash::RapidHashSet;
use vstd::prelude::*;

verus! {

/// How an autonomous run stands.
#[derive(Debug)]
pub struct AutonomousProgressSnapshot {
    pub running: bool,
    pub completed: usize,
    pub total: usize,
    pub assigned: usize,
    pub needs_review: usize,
    pub already_completed: usize,
    pub skipped_missing: usize,
    pub failed: usize,
    pub active_files: Vec<String>,
    pub last_message: String,
}

/// Two snapshots that say the same.
pub open spec fn same_progress(a: AutonomousProgressSnapshot, b: AutonomousProgressSnapshot) -> bool {
    &&& a.running == b.running
    &&& a.completed == b.completed
    &&& a.total == b.total
    &&& a.assigned == b.assigned
    &&& a.needs_review == b.needs_review
    &&& a.already_completed == b.already_completed
    &&& a.skipped_missing == b.skipped_missing
    &&& a.failed == b.failed
    &&& text::texts(a.active_files@) == text::texts(b.active_files@)
    &&& a.last_message@ == b.last_message@
}

/// A snapshot of a run that has not started.
pub open spec fn is_idle(snapshot: AutonomousProgressSnapshot) -> bool {
    &&& !snapshot.running
    &&& snapshot.completed == 0
    &&& snapshot.total == 0
    &&& snapshot.assigned == 0
    &&& snapshot.needs_review == 0
    &&& snapshot.already_completed == 0
    &&& snapshot.skipped_missing == 0
    &&& snapshot.failed == 0
    &&& snapshot.active_files@.len() == 0
    &&& snapshot.last_message@.len() == 0
}

impl Default for AutonomousProgressSnapshot {
    fn default() -> (snapshot: Self)
        ensures
            is_idle(snapshot),
    {
        AutonomousProgressSnapshot {
            running: false,
            completed: 0,
            total: 0,
            assigned: 0,
            needs_review: 0,
            already_completed: 0,
            skipped_missing: 0,
            failed: 0,
            active_files: Vec::new(),
            last_message: String::new(),
        }
    }
}

impl Clone for AutonomousProgressSnapshot {
    fn clone(&self) -> (copy: Self)
        ensures
            same_progress(copy, *self),
    {
        AutonomousProgressSnapshot {
            running: self.running,
            completed: self.completed,
            total: self.total,
            assigned: self.assigned,
            needs_review: self.needs_review,
            already_completed: self.already_completed,
            skipped_missing: self.skipped_missing,
            failed: self.failed,
            active_files: text::copy_list(&self.active_files),
            last_message: self.last_message.clone(),
        }
    }
}

/// A file that is done, and the revision at which it was.
#[derive(Debug)]
pub struct CompletedFile {
    pub revision: u64,
    pub path: FilePath,
}

/// What is new for a window.
#[derive(Debug)]
pub struct NumberingSessionChanges {
    pub source_dir: Option<FilePath>,
    pub source_revision: u64,
    pub completed_revision: u64,
    pub autonomous_progress_revision: u64,
    pub manual_open_revision: u64,
    pub source_changed: bool,
    pub completed_paths: Vec<FilePath>,
    pub autonomous_progress_changed: bool,
    pub autonomous_progress: AutonomousProgressSnapshot,
    pub manual_open_path: Option<FilePath>,
}

/// The state that the windows share.
#[derive(Debug)]
pub struct NumberingSession {
    pub source_dir: Option<FilePath>,
    pub source_revision: u64,
    pub completed_revision: u64,
    pub completed_files: Vec<CompletedFile>,
    pub completed_lookup: RapidHashSet<Vec<Vec<u8>>>,
    pub autonomous_progress_revision: u64,
    pub autonomous_progress: AutonomousProgressSnapshot,
    pub manual_open_revision: u64,
    pub manual_open_path: Option<FilePath>,
}

/// The completed files, each with its revision and its path.
pub open spec fn completed_view(files: Seq<CompletedFile>) -> Seq<(u64, Seq<u8>)> {
    Seq::new(files.len(), |i: int| (files[i].revision, files[i].path@))
}

/// The paths that were completed after a revision, in order.
pub open spec fn newer(files: Seq<(u64, Seq<u8>)>, revision: u64) -> Seq<Seq<u8>>
    decreases files.len(),
{
    if files.len() == 0 {
        Seq::empty()
    } else {
        let before = newer(files.drop_last(), revision);
        if files.last().0 > revision {
            before.push(files.last().1)
        } else {
            before
        }
    }
}

/// The revision after another; after the largest comes zero.
pub open spec fn next_revision(revision: u64) -> u64 {
    if revision == u64::MAX {
        0
    } else {
        (revision + 1) as u64
    }
}

/// The folder that is worked on is another one, in some way of writing it.
pub open spec fn is_folder(source_dir: Option<FilePath>, other: Seq<u8>) -> bool {
    source_dir matches Some(dir) && paths::same_path(dir@, other)
}

/// A file was taken note of as done. One that was done before changes nothing; any other
/// is listed last, at the next revision.
pub open spec fn is_marked(
    before: NumberingSession,
    after: NumberingSession,
    path: Seq<u8>,
) -> bool {
    &&& after.done() == before.done().insert(paths::parts_of(path))
    &&& before.done().contains(paths::parts_of(path)) ==> {
        &&& after.completed_revision == before.completed_revision
        &&& after.completed() == before.completed()
    }
    &&& !before.done().contains(paths::parts_of(path)) ==> {
        &&& after.completed_revision == next_revision(before.completed_revision)
        &&& after.completed() == before.completed().push((after.completed_revision, path))
    }
    &&& after.source_dir == before.source_dir
    &&& after.source_revision == before.source_revision
    &&& after.autonomous_progress_revision == before.autonomous_progress_revision
    &&& after.autonomous_progress == before.autonomous_progress
    &&& after.manual_open_revision == before.manual_open_revision
    &&& after.manual_open_path == before.manual_open_path
}

/// What a window last saw: the revisions of the folder, of the completed files, of the
/// progress and of the image that is to be opened.
pub type SeenRevisions = (u64, u64, u64, u64);

/// What is new in a session for a window that last saw some revisions.
pub open spec fn are_changes(
    session: NumberingSession,
    seen: SeenRevisions,
    changes: NumberingSessionChanges,
) -> bool {
    &&& paths::optional_view(changes.source_dir) == paths::optional_view(session.source_dir)
    &&& changes.source_revision == session.source_revision
    &&& changes.completed_revision == session.completed_revision
    &&& changes.autonomous_progress_revision == session.autonomous_progress_revision
    &&& changes.manual_open_revision == session.manual_open_revision
    &&& changes.source_changed == (session.source_revision != seen.0)
    &&& paths::paths_view(changes.completed_paths@) == (if changes.source_changed {
        Seq::empty()
    } else {
        newer(session.completed(), seen.1)
    })
    &&& changes.autonomous_progress_changed == (session.autonomous_progress_revision != seen.2)
    &&& same_progress(changes.autonomous_progress, session.autonomous_progress)
    &&& paths::optional_view(changes.manual_open_path) == (if session.manual_open_revision
        != seen.3 {
        paths::optional_view(session.manual_open_path)
    } else {
        None
    })
}

impl NumberingSessionChanges {
    /// The revisions that a window has seen once it was told.
    pub open spec fn seen(&self) -> SeenRevisions {
        (
            self.source_revision,
            self.completed_revision,
            self.autonomous_progress_revision,
            self.manual_open_revision,
        )
    }
}

impl NumberingSession {
    /// The completed files, each with its revision and its path.
    pub open spec fn completed(&self) -> Seq<(u64, Seq<u8>)> {
        completed_view(self.completed_files@)
    }

    /// The files that are done, by the components of their paths.
    pub open spec fn done(&self) -> Set<Seq<Seq<u8>>> {
        collections::path_members(self.completed_lookup)
    }

    /// The list and the lookup hold the same files, and none is listed twice.
    pub open spec fn wf(&self) -> bool {
        &&& forall|i: int, j: int|
            0 <= i < j < self.completed().len() ==> !paths::same_path(
                (#[trigger] self.completed()[i]).1,
                (#[trigger] self.completed()[j]).1,
            )
        &&& forall|i: int|
            0 <= i < self.completed().len() ==> self.done().contains(
                paths::parts_of((#[trigger] self.completed()[i]).1),
            )
        &&& forall|p: Seq<Seq<u8>>| #[trigger]
            self.done().contains(p) ==> exists|i: int|
                0 <= i < self.completed().len() && paths::parts_of(
                    (#[trigger] self.completed()[i]).1,
                ) == p
    }

    /// No file was completed at a later revision than the current one. This holds
    /// until the revisions start over.
    pub open spec fn counts_up(&self) -> bool {
        forall|i: int|
            0 <= i < self.completed().len() ==> (#[trigger] self.completed()[i]).0
                <= self.completed_revision
    }

    /// A session in which nothing has happened.
    pub fn new() -> (session: NumberingSession)
        ensures
            session.wf(),
            session.counts_up(),
            session.source_dir is None,
            session.source_revision == 0,
            session.completed_revision == 0,
            session.completed().len() == 0,
            session.done().is_empty(),
            session.autonomous_progress_revision == 0,
            is_idle(session.autonomous_progress),
            session.manual_open_revision == 0,
            session.manual_open_path is None,
    {
        NumberingSession {
            source_dir: None,
            source_revision: 0,
            completed_revision: 0,
            completed_files: Vec::new(),
            completed_lookup: collections::path_set_new(),
            autonomous_progress_revision: 0,
            autonomous_progress: AutonomousProgressSnapshot::default(),
            manual_open_revision: 0,
            manual_open_path: None,
        }
    }

    /// The folder that is worked on.
    pub fn source_dir(&self) -> (dir: Option<FilePath>)
        ensures
            paths::optional_view(dir) == paths::optional_view(self.source_dir),
    {
        paths::copy_optional(&self.source_dir)
    }

    /// Works on a folder from now on. With another folder than before, no file is
    /// done any more.
    pub fn set_source_dir(&mut self, source_dir: FilePath) -> (changes: NumberingSessionChanges)
        requires
            old(self).wf(),
        ensures
            final(self).wf(),
            is_folder(old(self).source_dir, source_dir@) ==> {
                &&& final(self).source_dir == old(self).source_dir
                &&& final(self).source_revision == old(self).source_revision
                &&& final(self).completed_revision == old(self).completed_revision
                &&& final(self).completed() == old(self).completed()
                &&& final(self).done() == old(self).done()
            },
            !is_folder(old(self).source_dir, source_dir@) ==> {
                &&& final(self).source_dir == Some(source_dir)
                &&& final(self).source_revision == next_revision(old(self).source_revision)
                &&& final(self).completed_revision == next_revision(old(self).completed_revision)
                &&& final(self).completed().len() == 0
                &&& final(self).done().is_empty()
            },
            old(self).counts_up() ==> final(self).counts_up(),
            final(self).autonomous_progress_revision == old(self).autonomous_progress_revision,
            final(self).autonomous_progress == old(self).autonomous_progress,
            final(self).manual_open_revision == old(self).manual_open_revision,
            final(self).manual_open_path == old(self).manual_open_path,
            paths::optional_view(changes.source_dir) == paths::optional_view(
                final(self).source_dir,
            ),
            changes.source_revision == final(self).source_revision,
            changes.completed_revision == final(self).completed_revision,
            changes.autonomous_progress_revision == final(self).autonomous_progress_revision,
            changes.manual_open_revision == final(self).manual_open_revision,
            changes.source_changed,
            changes.completed_paths@.len() == 0,
            changes.autonomous_progress_changed,
            same_progress(changes.autonomous_progress, final(self).autonomous_progress),
            changes.manual_open_path is None,
    {
        let unchanged = match &self.source_dir {
            Some(dir) => dir.same(&source_dir),
            None => false,
        };
        if !unchanged {
            self.source_dir = Some(source_dir);
            self.source_revision = self.source_revision.wrapping_add(1);
            self.completed_revision = self.completed_revision.wrapping_add(1);
            self.completed_files.clear();
            collections::path_set_clear(&mut self.completed_lookup);
        }
        NumberingSessionChanges {
            source_dir: paths::copy_optional(&self.source_dir),
            source_revision: self.source_revision,
            completed_revision: self.completed_revision,
            autonomous_progress_revision: self.autonomous_progress_revision,
            manual_open_revision: self.manual_open_revision,
            source_changed: true,
            completed_paths: Vec::new(),
            autonomous_progress_changed: true,
            autonomous_progress: self.autonomous_progress.clone(),
            manual_open_path: None,
        }
    }

    /// Takes note that a file is done. A file that was done before changes nothing.
    pub fn mark_completed(&mut self, path: FilePath)
        requires
            old(self).wf(),
        ensures
            final(self).wf(),
            is_marked(*old(self), *final(self), path@),
            old(self).counts_up() && old(self).completed_revision < u64::MAX ==> final(
                self).counts_up(),
    {
        let key = path.parts();
        let ghost before = *self;
        if !collections::path_set_insert(&mut self.completed_lookup, key) {
            assert(self.done() =~= before.done());
            assert(self.completed() == before.completed());
            return ;
        }
        self.completed_revision = self.completed_revision.wrapping_add(1);
        let revision: u64 = self.completed_revision;
        self.completed_files.push(CompletedFile { revision, path });
        proof {
            assert(self.completed() =~= before.completed().push((revision, path@)));
            assert forall|p: Seq<Seq<u8>>| #[trigger] self.done().contains(
                p,
            ) implies exists|i: int|
                0 <= i < self.completed().len() && paths::parts_of(
                    (#[trigger] self.completed()[i]).1,
                ) == p by {
                if p == paths::parts_of(path@) {
                    assert(self.completed()[before.completed().len() as int].1 == path@);
                } else {
                    assert(before.done().contains(p));
                    let i = choose|i: int|
                        0 <= i < before.completed().len() && paths::parts_of(
                            (#[trigger] before.completed()[i]).1,
                        ) == p;
                    assert(self.completed()[i] == before.completed()[i]);
                }
            }
            assert forall|i: int| 0 <= i < self.completed().len() implies self.done().contains(
                paths::parts_of((#[trigger] self.completed()[i]).1),
            ) by {
                if i < before.completed().len() {
                    assert(self.completed()[i] == before.completed()[i]);
                }
            }
            assert forall|i: int, j: int|
                0 <= i < j < self.completed().len() implies !paths::same_path(
                (#[trigger] self.completed()[i]).1,
                (#[trigger] self.completed()[j]).1,
            ) by {
                assert(self.completed()[i] == before.completed()[i]);
                if j < before.completed().len() {
                    assert(self.completed()[j] == before.completed()[j]);
                } else {
                    assert(before.done().contains(paths::parts_of(before.completed()[i].1)));
                }
            }
            if before.counts_up() && before.completed_revision < u64::MAX {
                assert forall|i: int| 0 <= i < self.completed().len() implies (
                #[trigger] self.completed()[i]).0 <= self.completed_revision by {
                    if i < before.completed().len() {
                        assert(self.completed()[i] == before.completed()[i]);
                    }
                }
            }
        }
    }

    /// Whether a file is done.
    pub fn is_completed(&self, path: &FilePath) -> (is: bool)
        ensures
            is == self.done().contains(paths::parts_of(path@)),
    {
        let key = path.parts();
        collections::path_set_contains(&self.completed_lookup, &key)
    }

    /// What is new for a window that last saw these revisions. After a change of
    /// the folder nothing is listed as completed: the folder is read anew.
    pub fn changes_since(
        &self,
        source_revision: u64,
        completed_revision: u64,
        autonomous_progress_revision: u64,
        manual_open_revision: u64,
    ) -> (changes: NumberingSessionChanges)
        ensures
            are_changes(
                *self,
                (
                    source_revision,
                    completed_revision,
                    autonomous_progress_revision,
                    manual_open_revision,
                ),
                changes,
            ),
    {
        let source_changed = self.source_revision != source_revision;
        let mut completed_paths: Vec<FilePath> = Vec::new();
        assert(paths::paths_view(completed_paths@) =~= Seq::empty());
        if !source_changed {
            let mut i: usize = 0;
            assert(self.completed().take(0) =~= Seq::empty());
            while i < self.completed_files.len()
                invariant
                    i <= self.completed_files@.len(),
                    paths::paths_view(completed_paths@) == newer(
                        self.completed().take(i as int),
                        completed_revision,
                    ),
                decreases self.completed_files@.len() - i,
            {
                let ghost so_far = paths::paths_view(completed_paths@);
                proof {
                    assert(self.completed().take(i + 1).drop_last() =~= self.completed().take(
                        i as int,
                    ));
                    assert(self.completed().take(i + 1).last() == self.completed()[i as int]);
                }
                let file = &self.completed_files[i];
                if file.revision > completed_revision {
                    completed_paths.push(file.path.clone());
                    assert(paths::paths_view(completed_paths@) =~= so_far.push(file.path@));
                }
                i += 1;
            }
            assert(self.completed().take(i as int) =~= self.completed());
        }
        let manual_open_path = if self.manual_open_revision != manual_open_revision {
            paths::copy_optional(&self.manual_open_path)
        } else {
            None
        };
        NumberingSessionChanges {
            source_dir: paths::copy_optional(&self.source_dir),
            source_revision: self.source_revision,
            completed_revision: self.completed_revision,
            autonomous_progress_revision: self.autonomous_progress_revision,
            manual_open_revision: self.manual_open_revision,
            source_changed,
            completed_paths,
            autonomous_progress_changed: self.autonomous_progress_revision
                != autonomous_progress_revision,
            autonomous_progress: self.autonomous_progress.clone(),
            manual_open_path,
        }
    }

    /// Takes note of how the autonomous run stands.
    pub fn publish_autonomous_progress(&mut self, progress: AutonomousProgressSnapshot)
        ensures
            final(self).autonomous_progress == progress,
            final(self).autonomous_progress_revision == next_revision(
                old(self).autonomous_progress_revision,
            ),
            final(self).source_dir == old(self).source_dir,
            final(self).source_revision == old(self).source_revision,
            final(self).completed_revision == old(self).completed_revision,
            final(self).completed() == old(self).completed(),
            final(self).done() == old(self).done(),
            final(self).manual_open_revision == old(self).manual_open_revision,
            final(self).manual_open_path == old(self).manual_open_path,
    {
        self.autonomous_progress = progress;
        self.autonomous_progress_revision = self.autonomous_progress_revision.wrapping_add(1);
    }

    /// Asks that a file is opened by hand.
    pub fn request_manual_open(&mut self, path: FilePath)
        ensures
            final(self).manual_open_path == Some(path),
            final(self).manual_open_revision == next_revision(old(self).manual_open_revision),
            final(self).source_dir == old(self).source_dir,
            final(self).source_revision == old(self).source_revision,
            final(self).completed_revision == old(self).completed_revision,
            final(self).completed() == old(self).completed(),
            final(self).done() == old(self).done(),
            final(self).autonomous_progress_revision == old(self).autonomous_progress_revision,
            final(self).autonomous_progress == old(self).autonomous_progress,
    {
        self.manual_open_path = Some(path);
        self.manual_open_revision = self.manual_open_revision.wrapping_add(1);
    }

    /// The revision of the last request to open a file.
    pub fn manual_open_revision(&self) -> (revision: u64)
        ensures
            revision == self.manual_open_revision,
    {
        self.manual_open_revision
    }
}

proof fn lemma_none_newer(files: Seq<(u64, Seq<u8>)>, revision: u64)
    requires
        forall|i: int| 0 <= i < files.len() ==> (#[trigger] files[i]).0 <= revision,
    ensures
        newer(files, revision) == Seq::<Seq<u8>>::empty(),
    decreases files.len(),
{
    if files.len() > 0 {
        assert(files.last() == files[files.len() - 1]);
        assert forall|i: int| 0 <= i < files.drop_last().len() implies (
        #[trigger] files.drop_last()[i]).0 <= revision by {
            assert(files.drop_last()[i] == files[i]);
        }
        lemma_none_newer(files.drop_last(), revision);
    }
}

/// A window that keeps up sees each completed file once: one that has seen the
/// current revision is told of nothing, and when another file is completed it is
/// told of that file alone.
pub proof fn each_completion_is_told_once(
    files: Seq<(u64, Seq<u8>)>,
    revision: u64,
    path: Seq<u8>,
)
    requires
        forall|i: int| 0 <= i < files.len() ==> (#[trigger] files[i]).0 <= revision,
        revision < u64::MAX,
    ensures
        newer(files, revision) == Seq::<Seq<u8>>::empty(),
        newer(files.push((next_revision(revision), path)), revision) == seq![path],
        newer(files.push((next_revision(revision), path)), next_revision(revision)) == Seq::<
            Seq<u8>,
        >::empty(),
{
    lemma_none_newer(files, revision);
    let more = files.push((next_revision(revision), path));
    assert(more.drop_last() =~= files);
    assert(newer(more, revision) =~= seq![path]);
    assert forall|i: int| 0 <= i < more.len() implies (#[trigger] more[i]).0 <= next_revision(
        revision,
    ) by {
        if i < files.len() {
            assert(more[i] == files[i]);
        }
    }
    lemma_none_newer(more, next_revision(revision));
}

proof fn lemma_newer_splits(files: Seq<(u64, Seq<u8>)>, at: int, revision: u64)
    requires
        0 <= at <= files.len(),
        forall|i: int| 0 <= i < at ==> (#[trigger] files[i]).0 <= revision,
        forall|i: int| at <= i < files.len() ==> (#[trigger] files[i]).0 > revision,
    ensures
        newer(files, revision) == Seq::new((files.len() - at) as nat, |i: int| files[at + i].1),
    decreases files.len(),
{
    if files.len() == at {
        lemma_none_newer(files, revision);
        assert(newer(files, revision) =~= Seq::new(0, |i: int| files[at + i].1));
    } else {
        let rest = files.drop_last();
        assert forall|i: int| 0 <= i < at implies (#[trigger] rest[i]).0 <= revision by {
            assert(rest[i] == files[i]);
        }
        assert forall|i: int| at <= i < rest.len() implies (#[trigger] rest[i]).0 > revision by {
            assert(rest[i] == files[i]);
        }
        lemma_newer_splits(rest, at, revision);
        assert(files.last() == files[files.len() - 1]);
        assert(newer(files, revision) =~= Seq::new(
            (files.len() - at) as nat,
            |i: int| files[at + i].1,
        ));
    }
}

/// A window that fell behind misses nothing: of files whose revisions go up it is
/// told of all that were completed after the revision that it saw, in order.
pub proof fn no_completion_is_missed(files: Seq<(u64, Seq<u8>)>, at: int, revision: u64)
    requires
        0 <= at <= files.len(),
        forall|i: int, j: int|
            0 <= i < j < files.len() ==> (#[trigger] files[i]).0 < (#[trigger] files[j]).0,
        at > 0 ==> files[at - 1].0 <= revision,
        at < files.len() ==> files[at].0 > revision,
    ensures
        newer(files, revision) == Seq::new((files.len() - at) as nat, |i: int| files[at + i].1),
{
    assert forall|i: int| 0 <= i < at implies (#[trigger] files[i]).0 <= revision by {
        if i < at - 1 {
            assert(files[i].0 < files[at - 1].0);
        }
    }
    assert forall|i: int| at <= i < files.len() implies (#[trigger] files[i]).0 > revision by {
        if at < i {
            assert(files[at].0 < files[i].0);
        }
    }
    lemma_newer_splits(files, at, revision);
}

/// The states of a session in which files are completed one after the other, none of them
/// done before.
pub open spec fn are_marked(sessions: Seq<NumberingSession>, files: Seq<Seq<u8>>) -> bool {
    &&& sessions.len() == files.len() + 1
    &&& forall|i: int|
        #![trigger files[i]]
        0 <= i < files.len() ==> is_marked(sessions[i], sessions[i + 1], files[i])
    &&& paths::all_differ(files)
    &&& forall|i: int|
        #![trigger files[i]]
        0 <= i < files.len() ==> !sessions[0].done().contains(
            paths::parts_of(files[i]),
        )
}

/// One of the first `n` files has some components.
spec fn is_among(files: Seq<Seq<u8>>, n: int, parts: Seq<Seq<u8>>) -> bool {
    exists|j: int| 0 <= j < n && paths::parts_of(#[trigger] files[j]) == parts
}

proof fn lemma_marked(sessions: Seq<NumberingSession>, files: Seq<Seq<u8>>, n: int)
    requires
        are_marked(sessions, files),
        sessions[0].completed_revision + files.len() <= u64::MAX,
        0 <= n <= files.len(),
    ensures
        ({
            let first = sessions[0];
            let later = sessions[n];
            &&& later.completed_revision == first.completed_revision + n
            &&& later.completed() == first.completed() + Seq::new(
                n as nat,
                |j: int| ((first.completed_revision + 1 + j) as u64, files[j]),
            )
            &&& forall|p: Seq<Seq<u8>>| #[trigger]
                later.done().contains(p) <==> first.done().contains(p) || is_among(files, n, p)
            &&& later.source_revision == first.source_revision
            &&& later.autonomous_progress_revision == first.autonomous_progress_revision
            &&& later.manual_open_revision == first.manual_open_revision
        }),
    decreases n,
{
    let first = sessions[0];
    let later = sessions[n];
    if n == 0 {
        assert(later.completed() =~= first.completed() + Seq::new(
            0,
            |j: int| ((first.completed_revision + 1 + j) as u64, files[j]),
        ));
    } else {
        lemma_marked(sessions, files, n - 1);
        let before = sessions[n - 1];
        let path = files[n - 1];
        assert(is_marked(before, later, path));
        let key = paths::parts_of(path);
        assert(!is_among(files, n - 1, key));
        assert(!before.done().contains(key));
        assert(later.completed() =~= first.completed() + Seq::new(
            n as nat,
            |j: int| ((first.completed_revision + 1 + j) as u64, files[j]),
        ));
        assert forall|p: Seq<Seq<u8>>| #[trigger] later.done().contains(p) <==> first.done().contains(
            p,
        ) || is_among(files, n, p) by {
            if p == key {
                assert(paths::parts_of(files[n - 1]) == p);
            } else if is_among(files, n - 1, p) {
                let j = choose|j: int| 0 <= j < n - 1 && paths::parts_of(#[trigger] files[j]) == p;
                assert(paths::parts_of(files[j]) == p);
            } else if is_among(files, n, p) {
                let j = choose|j: int| 0 <= j < n && paths::parts_of(#[trigger] files[j]) == p;
                assert(paths::parts_of(files[j]) == p);
            }
        }
    }
}

/// However many files are completed between two looks, a window is told of each of them
/// once, in the order in which they were completed, and of nothing else; at the next look
/// it is told of none.
pub proof fn completions_are_told_in_order(
    sessions: Seq<NumberingSession>,
    files: Seq<Seq<u8>>,
    seen: SeenRevisions,
    earlier: NumberingSessionChanges,
    changes: NumberingSessionChanges,
    again: NumberingSessionChanges,
)
    requires
        are_marked(sessions, files),
        sessions[0].counts_up(),
        sessions[0].completed_revision + files.len() <= u64::MAX,
        are_changes(sessions[0], seen, earlier),
        are_changes(sessions.last(), earlier.seen(), changes),
        are_changes(sessions.last(), changes.seen(), again),
    ensures
        !changes.source_changed,
        paths::paths_view(changes.completed_paths@) == files,
        !changes.autonomous_progress_changed,
        changes.manual_open_path is None,
        again.completed_paths@.len() == 0,
{
    let first = sessions[0];
    let later = sessions.last();
    let start = first.completed().len() as int;
    let revision = first.completed_revision;
    lemma_marked(sessions, files, files.len() as int);
    assert(later == sessions[files.len() as int]);
    let all = later.completed();
    assert forall|i: int| 0 <= i < start implies (#[trigger] all[i]).0 <= revision by {
        assert(all[i] == first.completed()[i]);
    }
    assert forall|i: int| start <= i < all.len() implies (#[trigger] all[i]).0 > revision by {
        assert(all[i].0 == revision + 1 + (i - start));
    }
    lemma_newer_splits(all, start, revision);
    assert(newer(all, revision) =~= files);
    assert forall|i: int| 0 <= i < all.len() implies (#[trigger] all[i]).0
        <= later.completed_revision by {
        if i >= start {
            assert(all[i].0 == revision + 1 + (i - start));
        }
    }
    lemma_none_newer(all, later.completed_revision);
    assert(paths::paths_view(again.completed_paths@).len() == again.completed_paths@.len());
}

impl NumberingSessionChanges {
    /// Whether there is anything new for the manual window.
    pub fn has_news(&self) -> (news: bool)
        ensures
            news == (self.source_changed || self.completed_paths@.len() > 0
                || self.autonomous_progress_changed || self.manual_open_path is Some),
    {
        self.source_changed || self.completed_paths.len() > 0 || self.autonomous_progress_changed
            || self.manual_open_path.is_some()
    }
}

/// What the manual window has seen of the session.
#[derive(Debug)]
pub struct SessionCursor {
    pub source_revision: u64,
    pub completed_revision: u64,
    pub autonomous_progress_revision: u64,
    pub manual_open_revision: u64,
    pub autonomous_progress: AutonomousProgressSnapshot,
}

/// What the manual window has to do about what is new: read a folder, take images
/// off its queue, show an image.
#[derive(Debug)]
pub struct SessionEffects {
    pub load: Option<FilePath>,
    pub remove: Vec<FilePath>,
    pub open: Option<FilePath>,
}

impl SessionCursor {
    /// Nothing has been seen yet.
    pub fn new() -> (cursor: SessionCursor)
        ensures
            cursor.source_revision == 0,
            cursor.completed_revision == 0,
            cursor.autonomous_progress_revision == 0,
            cursor.manual_open_revision == 0,
            is_idle(cursor.autonomous_progress),
    {
        SessionCursor {
            source_revision: 0,
            completed_revision: 0,
            autonomous_progress_revision: 0,
            manual_open_revision: 0,
            autonomous_progress: AutonomousProgressSnapshot::default(),
        }
    }

    /// Takes over what is new, and says what to do about it. With a new folder
    /// there is nothing to do but to read it.
    pub fn apply_session_changes(&mut self, changes: NumberingSessionChanges) -> (effects:
        SessionEffects)
        ensures
            final(self).completed_revision == changes.completed_revision,
            final(self).manual_open_revision == changes.manual_open_revision,
            changes.source_changed ==> {
                &&& final(self).source_revision == changes.source_revision
                &&& effects.load == changes.source_dir
                &&& effects.remove@.len() == 0
                &&& effects.open is None
            },
            !changes.source_changed ==> {
                &&& final(self).source_revision == old(self).source_revision
                &&& effects.load is None
                &&& effects.remove == changes.completed_paths
                &&& effects.open == changes.manual_open_path
            },
            changes.source_changed || changes.autonomous_progress_changed ==> {
                &&& final(self).autonomous_progress_revision == changes.autonomous_progress_revision
                &&& final(self).autonomous_progress == changes.autonomous_progress
            },
            !changes.source_changed && !changes.autonomous_progress_changed ==> {
                &&& final(self).autonomous_progress_revision == old(
                    self).autonomous_progress_revision
                &&& final(self).autonomous_progress == old(self).autonomous_progress
            },
    {
        if changes.source_changed {
            self.source_revision = changes.source_revision;
            self.completed_revision = changes.completed_revision;
            self.autonomous_progress_revision = changes.autonomous_progress_revision;
            self.manual_open_revision = changes.manual_open_revision;
            self.autonomous_progress = changes.autonomous_progress;
            return SessionEffects { load: changes.source_dir, remove: Vec::new(), open: None };
        }
        if changes.autonomous_progress_changed {
            self.autonomous_progress_revision = changes.autonomous_progress_revision;
            self.autonomous_progress = changes.autonomous_progress;
        }
        self.completed_revision = changes.completed_revision;
        self.manual_open_revision = changes.manual_open_revision;
        SessionEffects {
            load: None,
            remove: changes.completed_paths,
            open: changes.manual_open_path,
        }
    }
}

/// The counts of a run on one line.
pub open spec fn counts_line(p: AutonomousProgressSnapshot) -> Seq<char> {
    text::decimal(p.completed as nat) + "/"@ + text::decimal(p.total as nat) + " assigned "@
        + text::decimal(p.assigned as nat) + " review "@ + text::decimal(p.needs_review as nat)
        + " done "@ + text::decimal(p.already_completed as nat) + " missing "@ + text::decimal(
        p.skipped_missing as nat,
    ) + " failed "@ + text::decimal(p.failed as nat)
}

/// What a run is at.
pub open spec fn activity_line(p: AutonomousProgressSnapshot) -> Seq<char> {
    let active = if p.active_files@.len() == 0 {
        "Idle"@
    } else {
        text::joined(text::texts(p.active_files@), ", "@)
    };
    if p.last_message@.len() == 0 {
        active
    } else {
        p.last_message@ + " - "@ + active
    }
}

impl AutonomousProgressSnapshot {
    /// The counts of the run on one line.
    pub fn counts_text(&self) -> (line: String)
        ensures
            line@ == counts_line(*self),
    {
        let mut line = text::decimal_text(self.completed as u64);
        text::push_text(&mut line, "/");
        text::push_decimal(&mut line, self.total as u64);
        text::push_text(&mut line, " assigned ");
        text::push_decimal(&mut line, self.assigned as u64);
        text::push_text(&mut line, " review ");
        text::push_decimal(&mut line, self.needs_review as u64);
        text::push_text(&mut line, " done ");
        text::push_decimal(&mut line, self.already_completed as u64);
        text::push_text(&mut line, " missing ");
        text::push_decimal(&mut line, self.skipped_missing as u64);
        text::push_text(&mut line, " failed ");
        text::push_decimal(&mut line, self.failed as u64);
        line
    }

    /// What the run is at: its last message and the files that are worked on.
    pub fn activity_text(&self) -> (line: String)
        ensures
            line@ == activity_line(*self),
    {
        let active = if self.active_files.len() == 0 {
            text::owned("Idle")
        } else {
            text::join(&self.active_files, ", ")
        };
        if self.last_message.as_str().is_empty() {
            active
        } else {
            let mut line = self.last_message.clone();
            text::push_text(&mut line, " - ");
            text::push_text(&mut line, active.as_str());
            line
        }
    }
}

/// What is new in a list of completed files is what is new in its first part and then what
/// is new in the rest; a file is new just when it was completed after the revision that was
/// seen.
pub proof fn completions_are_told_one_by_one(
    a: Seq<(u64, Seq<u8>)>,
    b: Seq<(u64, Seq<u8>)>,
    revision: u64,
    file: (u64, Seq<u8>),
)
    ensures
        newer(a + b, revision) == newer(a, revision) + newer(b, revision),
        file.0 > revision ==> newer(seq![file], revision) == seq![file.1],
        file.0 <= revision ==> newer(seq![file], revision).len() == 0,
    decreases b.len(),
{
    reveal_with_fuel(newer, 2);
    assert(seq![file].drop_last() =~= Seq::<(u64, Seq<u8>)>::empty());
    assert(Seq::<Seq<u8>>::empty().push(file.1) =~= seq![file.1]);
    if b.len() == 0 {
        assert(a + b =~= a);
        assert(newer(a, revision) + newer(b, revision) =~= newer(a, revision));
    } else {
        completions_are_told_one_by_one(a, b.drop_last(), revision, file);
        assert((a + b).drop_last() =~= a + b.drop_last());
        assert((a + b).last() == b.last());
        assert(newer(a + b, revision) =~= newer(a, revision) + newer(b, revision));
    }
}

/// Revisions go up by one, and after the largest one comes zero; so two in a row always
/// differ.
pub proof fn revisions_go_up(revision: u64)
    ensures
        revision < u64::MAX ==> next_revision(revision) == revision + 1,
        next_revision(u64::MAX) == 0,
        next_revision(revision) != revision,
{
}

/// A window is told of another folder, of progress and of an image to open just when their
/// revisions are not the ones that it has seen. With another folder no file is told of as
/// completed. One that has seen everything is told of nothing.
pub proof fn windows_are_told_what_they_have_not_seen(
    session: NumberingSession,
    seen: SeenRevisions,
    changes: NumberingSessionChanges,
)
    requires
        are_changes(session, seen, changes),
        session.counts_up(),
    ensures
        changes.source_changed <==> session.source_revision != seen.0,
        changes.source_changed ==> changes.completed_paths@.len() == 0,
        !changes.source_changed && seen.1 == session.completed_revision
            ==> changes.completed_paths@.len() == 0,
        changes.autonomous_progress_changed <==> session.autonomous_progress_revision != seen.2,
        session.manual_open_revision == seen.3 ==> changes.manual_open_path is None,
        session.manual_open_revision != seen.3 ==> paths::optional_view(changes.manual_open_path)
            == paths::optional_view(session.manual_open_path),
        changes.seen() == (
            session.source_revision,
            session.completed_revision,
            session.autonomous_progress_revision,
            session.manual_open_revision,
        ),
{
    assert(paths::paths_view(changes.completed_paths@).len() == changes.completed_paths@.len());
    if seen.1 == session.completed_revision {
        lemma_none_newer(session.completed(), seen.1);
    }
}

/// A file that is taken note of is done, in whatever way its path is written, and no other
/// file becomes done by it. Taking note of it again changes nothing.
pub proof fn completed_files_are_done(
    before: NumberingSession,
    after: NumberingSession,
    again: NumberingSession,
    path: Seq<u8>,
    other: Seq<u8>,
)
    requires
        is_marked(before, after, path),
        is_marked(after, again, path),
    ensures
        after.done().contains(paths::parts_of(path)),
        !paths::same_path(other, path) ==> (after.done().contains(paths::parts_of(other))
            <==> before.done().contains(paths::parts_of(other))),
        before.done().contains(paths::parts_of(other)) ==> after.done().contains(
            paths::parts_of(other),
        ),
        again.completed() == after.completed(),
        again.completed_revision == after.completed_revision,
        !before.done().contains(paths::parts_of(path)) ==> after.completed().len()
            == before.completed().len() + 1 && after.completed().last().1 == path
            && after.completed().last().0 == after.completed_revision && after.completed_revision
            == next_revision(before.completed_revision),
{
}

/// The counts of a run are told each under its name.
pub proof fn counts_are_told_under_their_names(p: AutonomousProgressSnapshot)
    ensures
        counts_line(p) == text::decimal(p.completed as nat) + "/"@ + text::decimal(p.total as nat)
            + " assigned "@ + text::decimal(p.assigned as nat) + " review "@ + text::decimal(
            p.needs_review as nat,
        ) + " done "@ + text::decimal(p.already_completed as nat) + " missing "@ + text::decimal(
            p.skipped_missing as nat,
        ) + " failed "@ + text::decimal(p.failed as nat),
{
}

/// What a run is at are the files that are worked on, with commas between them, or that it
/// is idle; and before that its last message, where there is one.
pub proof fn activity_tells_files_and_message(p: AutonomousProgressSnapshot)
    ensures
        p.last_message@.len() == 0 && p.active_files@.len() == 0 ==> activity_line(p) == "Idle"@,
        p.last_message@.len() == 0 && p.active_files@.len() == 1 ==> activity_line(p)
            == p.active_files@[0]@,
        p.last_message@.len() == 0 && p.active_files@.len() == 2 ==> activity_line(p)
            == p.active_files@[0]@ + ", "@ + p.active_files@[1]@,
        p.last_message@.len() > 0 ==> forall|silent: AutonomousProgressSnapshot|
            silent.last_message@.len() == 0 && silent.active_files == p.active_files
                ==> activity_line(p) == p.last_message@ + " - "@ + #[trigger] activity_line(silent),
{
    let list = text::texts(p.active_files@);
    if p.active_files@.len() == 2 {
        text::separators_stand_between(seq![list[0]], seq![list[1]], ", "@);
        text::separators_stand_between(seq![list[1]], seq![list[0]], ", "@);
        assert(seq![list[0]] + seq![list[1]] =~= list);
    }
}

/// Snapshots say the same just when they agree in all that they say, and a run that has not
/// started is at nothing and has nothing done.
pub proof fn equal_snapshots_agree(a: AutonomousProgressSnapshot, b: AutonomousProgressSnapshot)
    ensures
        same_progress(a, b) ==> a.running == b.running && counts_line(a) == counts_line(b)
            && activity_line(a) == activity_line(b) && a.completed == b.completed && a.total
            == b.total && a.assigned == b.assigned && a.needs_review == b.needs_review
            && a.already_completed == b.already_completed && a.skipped_missing == b.skipped_missing
            && a.failed == b.failed && a.last_message@ == b.last_message@ && text::texts(
            a.active_files@,
        ) == text::texts(b.active_files@),
        is_idle(a) ==> !a.running && a.completed == 0 && a.total == 0 && a.assigned == 0
            && a.needs_review == 0 && a.already_completed == 0 && a.skipped_missing == 0 && a.failed
            == 0 && activity_line(a) == "Idle"@,
{
    if same_progress(a, b) {
        assert(text::texts(a.active_files@).len() == text::texts(b.active_files@).len());
    }
}

/// Taking note of a file leaves the folder, the progress and the image that is to be opened as
/// they are, and every file that was listed before in its place.
pub proof fn completions_change_nothing_else(
    before: NumberingSession,
    after: NumberingSession,
    path: Seq<u8>,
    i: int,
)
    requires
        is_marked(before, after, path),
    ensures
        after.source_dir == before.source_dir,
        after.source_revision == before.source_revision,
        after.autonomous_progress == before.autonomous_progress,
        after.autonomous_progress_revision == before.autonomous_progress_revision,
        after.manual_open_path == before.manual_open_path,
        after.manual_open_revision == before.manual_open_revision,
        before.completed().len() <= after.completed().len(),
        0 <= i < before.completed().len() ==> after.completed()[i] == before.completed()[i],
        before.done().contains(paths::parts_of(path)) ==> after.completed() == before.completed()
            && after.completed_revision == before.completed_revision,
{
}

/// A window is told the folder and the progress as they are, whatever it has seen.
pub proof fn windows_are_told_folder_and_progress(
    session: NumberingSession,
    seen: SeenRevisions,
    changes: NumberingSessionChanges,
)
    requires
        are_changes(session, seen, changes),
    ensures
        session.source_dir is None <==> changes.source_dir is None,
        session.source_dir matches Some(dir) ==> (changes.source_dir matches Some(told) && told@
            == dir@),
        changes.autonomous_progress.running == session.autonomous_progress.running,
        changes.autonomous_progress.completed == session.autonomous_progress.completed,
        changes.autonomous_progress.total == session.autonomous_progress.total,
        counts_line(changes.autonomous_progress) == counts_line(session.autonomous_progress),
{
}

/// A folder is the one that is worked on just when both paths have the same components.
pub proof fn folders_are_told_by_their_components(dir: FilePath, other: Seq<u8>)
    ensures
        is_folder(Some(dir), other) <==> paths::parts_of(dir@) == paths::parts_of(other),
        !is_folder(None, other),
{
}

}
