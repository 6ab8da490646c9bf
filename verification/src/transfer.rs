//! The engine that copies, moves and deletes: a state machine that asks for
//! one operation on the file system at a time, takes in how it went, and
//! says what to publish. It never stops for an error in one file.

use crate::paths::{base_name, join, spec_base_name, spec_join};
use crate::text::{decimal, decimal_of};
use vstd::prelude::*;
use vstd::string::*;

verus! {

/// Progress is published once so many bytes have gathered: 4 MiB.
pub const PUBLISH_FROM: u64 = 4_194_304;

/// What a transfer does with its sources.
#[derive(Debug, Copy, Clone, PartialEq, Eq, Structural)]
pub enum Kind {
    Copy,
    Move,
    Remove,
}

/// Where a transfer stands, by the answer that it waits for.
#[derive(Debug, Copy, Clone, PartialEq, Eq, Structural)]
pub enum Phase {
    /// The size of a source.
    Planning,
    /// Whether the destination that is tried exists already.
    Naming,
    /// Whether the source could be renamed to the destination.
    Renaming,
    /// Whether the source is a symbolic link.
    Probing,
    /// How the making of the link went.
    Linking,
    /// How the copy of the root of the source's tree went.
    Opening,
    /// How the copy of the next entry of the tree went.
    Walking,
    /// How the removal of the source went.
    Removing,
    /// Nothing: the transfer is over.
    Done,
}

/// The operation on the file system that a transfer asks for.
#[derive(Debug)]
pub enum Command {
    /// Sum up the sizes of all that lies under the path; links count nothing.
    Size(String),
    /// Say whether the path exists.
    Exists(String),
    /// Rename the first path to the second.
    Rename(String, String),
    /// Say whether the path is a symbolic link.
    IsLink(String),
    /// Make a link at the second path that points where the first does.
    CopyLink(String, String),
    /// Walk the tree under the first path and copy its root to the second.
    Walk(String, String),
    /// Copy the next entry of the tree.
    Next,
    /// Remove the path and all that lies under it.
    Remove(String),
    /// Nothing more.
    Stop,
}

/// How the operation went that the transfer asked for.
#[derive(Debug)]
pub enum Event {
    Sized(Result<u64, String>),
    Exists(bool),
    Renamed(bool),
    Link(bool),
    Linked(Result<(), String>),
    /// The bytes that the copy of one entry wrote, or nothing when the walk is over.
    Entry(Option<Result<u64, String>>),
    Removed(Result<(), String>),
}

/// What a transfer has to say to the engine.
#[derive(Debug)]
pub enum Notice {
    /// The bytes of the whole transfer; zero says that it is over.
    Total(u64),
    /// Bytes done since the last notice.
    Progress(u64),
    /// An error, in words.
    Error(String),
}

/// A notice as a value of the model.
pub enum Note {
    Total(u64),
    Progress(u64),
    Error(Seq<char>),
}

impl View for Notice {
    type V = Note;

    open spec fn view(&self) -> Note {
        match self {
            Notice::Total(n) => Note::Total(*n),
            Notice::Progress(n) => Note::Progress(*n),
            Notice::Error(m) => Note::Error(m@),
        }
    }
}

/// The notices as values of the model.
pub open spec fn notes_of(notices: Seq<Notice>) -> Seq<Note> {
    Seq::new(notices.len(), |i: int| notices[i]@)
}

/// The name that is tried at the `count`-th attempt to find a free one:
/// the name itself at first, then the name with `.~1~` behind it, with
/// `.~2~`, and so on.
pub open spec fn candidate(name: Seq<char>, count: nat) -> Seq<char> {
    if count == 0 {
        name
    } else {
        name + seq!['.', '~'] + decimal_of(count) + seq!['~']
    }
}

/// Whether so many bytes have gathered that they are to be published.
pub open spec fn due(pending: u64) -> bool {
    pending >= PUBLISH_FROM
}

/// The size that was taken of the source `i`; nothing for a source whose
/// size could not be taken.
pub open spec fn size_at(sizes: Seq<Option<u64>>, i: int) -> u64 {
    match sizes[i] {
        Some(n) => n,
        None => 0,
    }
}

/// The sum of two counts of bytes, held at the greatest count there is.
pub open spec fn added(a: u64, b: u64) -> u64 {
    if a + b > u64::MAX {
        u64::MAX
    } else {
        (a + b) as u64
    }
}

/// What a step leaves: the fields of the transfer that it may change, and
/// the notices that it gives.
pub struct Outcome {
    pub phase: Phase,
    pub index: int,
    pub count: int,
    pub failed: bool,
    pub pending: u64,
    pub total: u64,
    pub sizes: Seq<Option<u64>>,
    pub notes: Seq<Note>,
}

/// `o` after `bytes` more were done: they are published with what had
/// gathered once that is due.
pub open spec fn accounted(o: Outcome, bytes: u64) -> Outcome {
    let sum = added(o.pending, bytes);
    if due(sum) {
        Outcome { pending: 0, notes: o.notes.push(Note::Progress(sum)), ..o }
    } else {
        Outcome { pending: sum, ..o }
    }
}

/// `o` when the work on source `index` of `len` begins: a source to copy
/// or move gets a destination first, one to delete is removed at once. A
/// source to delete whose size could not be taken has had its error. Behind
/// the last source the transfer is over, and says so.
pub open spec fn begun(o: Outcome, kind: Kind, len: int, index: int) -> Outcome {
    if index < len {
        Outcome {
            phase: if kind == Kind::Remove {
                Phase::Removing
            } else {
                Phase::Naming
            },
            index,
            count: 0,
            failed: kind == Kind::Remove && o.sizes[index] is None,
            ..o
        }
    } else {
        Outcome { phase: Phase::Done, index, count: 0, failed: false, notes: o.notes.push(Note::Total(0)), ..o }
    }
}

/// A copy, a move or a deletion of some paths, as far as it has come.
#[derive(Debug)]
pub struct Transfer {
    pub kind: Kind,
    pub sources: Vec<String>,
    pub dst_dir: String,
    pub phase: Phase,
    /// The source in work.
    pub index: usize,
    /// The attempt at a free name for its destination.
    pub count: u64,
    /// The destination that is tried, or was found.
    pub dest: String,
    /// Whether the source in work has met an error: in its copy, or when
    /// its size was asked for.
    pub failed: bool,
    /// The sizes of the sources, as far as they were asked for; nothing
    /// for one whose size could not be taken.
    pub sizes: Vec<Option<u64>>,
    pub total: u64,
    /// The bytes done that are not yet published.
    pub pending: u64,
}

impl Transfer {
    /// The source in work.
    pub open spec fn source(&self) -> Seq<char> {
        self.sources@[self.index as int]@
    }

    /// The destination that is tried for the source in work.
    pub open spec fn spec_dest(&self) -> Seq<char> {
        spec_join(self.dst_dir@, candidate(spec_base_name(self.source()), self.count as nat))
    }

    /// Whether the phase is one in which a destination is in use.
    pub open spec fn placing(&self) -> bool {
        self.phase == Phase::Naming || self.phase == Phase::Renaming || self.phase == Phase::Probing || self.phase
            == Phase::Linking || self.phase == Phase::Opening || self.phase == Phase::Walking
    }

    /// The source in work is one of the sources while the transfer runs;
    /// the sizes are known as far as the planning has come, and all of them
    /// after it; a source that is removed has met an error only where its
    /// size could not be taken; what has gathered is less than what is published at once;
    /// the destination is the one that the attempt asks for; and the phase
    /// is one of the kind of transfer.
    pub open spec fn wf(&self) -> bool {
        &&& self.index <= self.sources@.len()
        &&& self.phase != Phase::Done ==> self.index < self.sources@.len()
        &&& self.phase == Phase::Planning ==> self.sizes@.len() == self.index && self.pending == 0
        &&& self.phase != Phase::Planning && self.phase != Phase::Done ==> self.sizes@.len() == self.sources@.len()
        &&& !due(self.pending)
        &&& self.placing() ==> self.dest@ == self.spec_dest() && self.kind != Kind::Remove
        &&& self.phase == Phase::Renaming ==> self.kind == Kind::Move
        &&& self.phase == Phase::Removing ==> self.kind != Kind::Copy
        &&& self.phase == Phase::Removing ==> self.failed == (self.kind == Kind::Remove
            && self.sizes@[self.index as int] is None)
    }

    /// The fields that a step may change, as they are.
    pub open spec fn outcome(&self) -> Outcome {
        Outcome {
            phase: self.phase,
            index: self.index as int,
            count: self.count as int,
            failed: self.failed,
            pending: self.pending,
            total: self.total,
            sizes: self.sizes@,
            notes: Seq::empty(),
        }
    }

    /// `o` after the copy of the source in work is over: a source that was
    /// to be moved and was copied without an error is removed next; else the
    /// next source is begun.
    pub open spec fn copied(&self, o: Outcome) -> Outcome {
        if self.kind == Kind::Move && !o.failed {
            Outcome { phase: Phase::Removing, ..o }
        } else {
            begun(o, self.kind, self.sources@.len() as int, self.index + 1)
        }
    }

    /// `o` after the size of the source in work was asked for: the next
    /// size is asked for; behind the last one the total is published and the
    /// work on the first source begins.
    pub open spec fn planned(&self, o: Outcome) -> Outcome {
        if self.index + 1 < self.sources@.len() {
            Outcome { index: self.index + 1, ..o }
        } else {
            begun(
                Outcome { notes: o.notes.push(Note::Total(o.total)), ..o },
                self.kind,
                self.sources@.len() as int,
                0,
            )
        }
    }

    /// What a step leaves when `event` comes in. A size that cannot be
    /// taken ends a copy or a move before it has begun; a deletion reports
    /// it and goes on, and says nothing more when that source cannot be
    /// removed either. Any other error is reported and the transfer goes
    /// on. An answer that the phase does not wait for changes nothing.
    pub open spec fn spec_step(&self, event: Event) -> Outcome {
        let o = self.outcome();
        let len = self.sources@.len() as int;
        match (self.phase, event) {
            (Phase::Planning, Event::Sized(Ok(n))) => self.planned(
                Outcome { sizes: o.sizes.push(Some(n)), total: added(o.total, n), ..o },
            ),
            (Phase::Planning, Event::Sized(Err(m))) => if self.kind == Kind::Remove {
                self.planned(Outcome { sizes: o.sizes.push(None), notes: seq![Note::Error(m@)], ..o })
            } else {
                Outcome { phase: Phase::Done, notes: seq![Note::Error(m@)], ..o }
            },
            (Phase::Naming, Event::Exists(true)) => if self.count < u64::MAX {
                Outcome { count: self.count + 1, ..o }
            } else {
                begun(
                    Outcome { notes: seq![Note::Error("No free name is left"@)], ..o },
                    self.kind,
                    len,
                    self.index + 1,
                )
            },
            (Phase::Naming, Event::Exists(false)) => Outcome {
                phase: if self.kind == Kind::Move {
                    Phase::Renaming
                } else {
                    Phase::Probing
                },
                ..o
            },
            (Phase::Renaming, Event::Renamed(true)) => begun(
                accounted(o, size_at(self.sizes@, self.index as int)),
                self.kind,
                len,
                self.index + 1,
            ),
            (Phase::Renaming, Event::Renamed(false)) => Outcome { phase: Phase::Probing, ..o },
            (Phase::Probing, Event::Link(true)) => Outcome { phase: Phase::Linking, ..o },
            (Phase::Probing, Event::Link(false)) => Outcome { phase: Phase::Opening, ..o },
            (Phase::Linking, Event::Linked(Ok(_))) => self.copied(o),
            (Phase::Linking, Event::Linked(Err(m))) => self.copied(
                Outcome { failed: true, notes: seq![Note::Error(m@)], ..o },
            ),
            (Phase::Opening, Event::Entry(Some(Ok(n)))) | (Phase::Walking, Event::Entry(Some(Ok(n)))) => accounted(
                Outcome { phase: Phase::Walking, ..o },
                n,
            ),
            (Phase::Opening, Event::Entry(Some(Err(m)))) | (Phase::Walking, Event::Entry(Some(Err(m)))) => Outcome {
                phase: Phase::Walking,
                failed: true,
                notes: seq![Note::Error(m@)],
                ..o
            },
            (Phase::Opening, Event::Entry(None)) | (Phase::Walking, Event::Entry(None)) => self.copied(o),
            (Phase::Removing, Event::Removed(Ok(_))) => begun(
                if self.kind == Kind::Remove {
                    accounted(o, size_at(self.sizes@, self.index as int))
                } else {
                    o
                },
                self.kind,
                len,
                self.index + 1,
            ),
            (Phase::Removing, Event::Removed(Err(m))) => begun(
                if self.failed {
                    o
                } else {
                    Outcome { notes: seq![Note::Error(m@)], ..o }
                },
                self.kind,
                len,
                self.index + 1,
            ),
            _ => o,
        }
    }

    /// `self` holds what the outcome `o` says.
    pub open spec fn holds(&self, o: Outcome) -> bool {
        &&& self.phase == o.phase
        &&& self.index == o.index
        &&& self.count == o.count
        &&& self.failed == o.failed
        &&& self.pending == o.pending
        &&& self.total == o.total
        &&& self.sizes@ == o.sizes
    }

    /// The operation that the transfer asks for in its phase.
    pub open spec fn asks(&self, c: Command) -> bool {
        match self.phase {
            Phase::Planning => c matches Command::Size(p) && p@ == self.source(),
            Phase::Naming => c matches Command::Exists(p) && p@ == self.spec_dest(),
            Phase::Renaming => c matches Command::Rename(p, q) && p@ == self.source() && q@ == self.spec_dest(),
            Phase::Probing => c matches Command::IsLink(p) && p@ == self.source(),
            Phase::Linking => c matches Command::CopyLink(p, q) && p@ == self.source() && q@ == self.spec_dest(),
            Phase::Opening => c matches Command::Walk(p, q) && p@ == self.source() && q@ == self.spec_dest(),
            Phase::Walking => c is Next,
            Phase::Removing => c matches Command::Remove(p) && p@ == self.source(),
            Phase::Done => c is Stop,
        }
    }

    /// A transfer of `sources`, into the directory `dst_dir` where it
    /// copies or moves. It begins by asking for the size of the first
    /// source; without any source it is over at once.
    pub fn new(kind: Kind, sources: Vec<String>, dst_dir: String) -> (r: Transfer)
        ensures
            r.wf(),
            r.kind == kind,
            r.sources == sources,
            r.dst_dir == dst_dir,
            r.phase == if sources@.len() > 0 {
                Phase::Planning
            } else {
                Phase::Done
            },
            r.index == 0,
            r.count == 0,
            !r.failed,
            r.sizes@.len() == 0,
            r.total == 0,
            r.pending == 0,
    {
        let phase = if sources.len() > 0 {
            Phase::Planning
        } else {
            Phase::Done
        };
        Transfer {
            kind,
            sources,
            dst_dir,
            phase,
            index: 0,
            count: 0,
            dest: String::new(),
            failed: false,
            sizes: Vec::new(),
            total: 0,
            pending: 0,
        }
    }

    /// The operation that the transfer asks for: see `asks`.
    pub fn command(&self) -> (c: Command)
        requires
            self.wf(),
        ensures
            self.asks(c),
    {
        match self.phase {
            Phase::Planning => Command::Size(self.sources[self.index].clone()),
            Phase::Naming => Command::Exists(self.dest.clone()),
            Phase::Renaming => Command::Rename(self.sources[self.index].clone(), self.dest.clone()),
            Phase::Probing => Command::IsLink(self.sources[self.index].clone()),
            Phase::Linking => Command::CopyLink(self.sources[self.index].clone(), self.dest.clone()),
            Phase::Opening => Command::Walk(self.sources[self.index].clone(), self.dest.clone()),
            Phase::Walking => Command::Next,
            Phase::Removing => Command::Remove(self.sources[self.index].clone()),
            Phase::Done => Command::Stop,
        }
    }

    fn add(a: u64, b: u64) -> (r: u64)
        ensures
            r == added(a, b),
    {
        if b > u64::MAX - a {
            u64::MAX
        } else {
            a + b
        }
    }

    fn account(&mut self, bytes: u64, notices: &mut Vec<Notice>)
        ensures
            final(self).holds(accounted(Outcome { notes: notes_of(old(notices)@), ..old(self).outcome() }, bytes)),
            notes_of(final(notices)@) == accounted(
                Outcome { notes: notes_of(old(notices)@), ..old(self).outcome() },
                bytes,
            ).notes,
            !due(final(self).pending),
            final(self).kind == old(self).kind,
            final(self).sources == old(self).sources,
            final(self).dst_dir == old(self).dst_dir,
            final(self).dest == old(self).dest,
    {
        let sum = Self::add(self.pending, bytes);
        if sum >= PUBLISH_FROM {
            notices.push(Notice::Progress(sum));
            self.pending = 0;
            assert(notes_of(notices@) =~= notes_of(old(notices)@).push(Note::Progress(sum)));
        } else {
            self.pending = sum;
        }
    }

    /// Sets the destination that is tried for the source in work.
    fn place(&mut self)
        requires
            old(self).index < old(self).sources@.len(),
        ensures
            final(self).dest@ == old(self).spec_dest(),
            final(self).kind == old(self).kind,
            final(self).sources == old(self).sources,
            final(self).dst_dir == old(self).dst_dir,
            final(self).holds(old(self).outcome()),
    {
        proof {
            reveal_strlit(".~");
            reveal_strlit("~");
        }
        let mut name = base_name(self.sources[self.index].as_str());
        if self.count > 0 {
            name.append(".~");
            let digits = decimal(self.count);
            name.append(digits.as_str());
            name.append("~");
            assert(name@ =~= candidate(spec_base_name(self.source()), self.count as nat));
        }
        self.dest = join(self.dst_dir.as_str(), name.as_str());
    }

    fn begin(&mut self, index: usize, notices: &mut Vec<Notice>)
        requires
            index <= old(self).sources@.len(),
            old(self).sizes@.len() == old(self).sources@.len(),
            !due(old(self).pending),
        ensures
            final(self).wf(),
            final(self).holds(
                begun(
                    Outcome { notes: notes_of(old(notices)@), ..old(self).outcome() },
                    old(self).kind,
                    old(self).sources@.len() as int,
                    index as int,
                ),
            ),
            notes_of(final(notices)@) == begun(
                Outcome { notes: notes_of(old(notices)@), ..old(self).outcome() },
                old(self).kind,
                old(self).sources@.len() as int,
                index as int,
            ).notes,
            final(self).kind == old(self).kind,
            final(self).sources == old(self).sources,
            final(self).dst_dir == old(self).dst_dir,
    {
        self.index = index;
        self.count = 0;
        self.failed = false;
        if index < self.sources.len() {
            match self.kind {
                Kind::Remove => {
                    self.phase = Phase::Removing;
                    self.failed = self.sizes[index].is_none();
                },
                _ => {
                    self.phase = Phase::Naming;
                    self.place();
                },
            }
        } else {
            self.phase = Phase::Done;
            notices.push(Notice::Total(0));
            assert(notes_of(notices@) =~= notes_of(old(notices)@).push(Note::Total(0)));
        }
    }

    fn size_here(&self) -> (r: u64)
        requires
            self.index < self.sizes@.len(),
        ensures
            r == size_at(self.sizes@, self.index as int),
    {
        match self.sizes[self.index] {
            Some(n) => n,
            None => 0,
        }
    }

    fn plan_on(&mut self, notices: &mut Vec<Notice>)
        requires
            old(self).phase == Phase::Planning,
            old(self).index < old(self).sources@.len(),
            old(self).sizes@.len() == old(self).index + 1,
            old(self).pending == 0,
        ensures
            final(self).wf(),
            final(self).holds(old(self).planned(Outcome { notes: notes_of(old(notices)@), ..old(self).outcome() })),
            notes_of(final(notices)@) == old(self).planned(
                Outcome { notes: notes_of(old(notices)@), ..old(self).outcome() },
            ).notes,
            final(self).kind == old(self).kind,
            final(self).sources == old(self).sources,
            final(self).dst_dir == old(self).dst_dir,
    {
        let len = self.sources.len();
        if self.index + 1 < len {
            self.index = self.index + 1;
        } else {
            notices.push(Notice::Total(self.total));
            assert(notes_of(notices@) =~= notes_of(old(notices)@).push(Note::Total(self.total)));
            self.begin(0, notices);
        }
    }

    fn after_copy(&mut self, notices: &mut Vec<Notice>)
        requires
            old(self).wf(),
            old(self).placing(),
        ensures
            final(self).wf(),
            final(self).holds(old(self).copied(Outcome { notes: notes_of(old(notices)@), ..old(self).outcome() })),
            notes_of(final(notices)@) == old(self).copied(
                Outcome { notes: notes_of(old(notices)@), ..old(self).outcome() },
            ).notes,
            final(self).kind == old(self).kind,
            final(self).sources == old(self).sources,
            final(self).dst_dir == old(self).dst_dir,
    {
        let len = self.sources.len();
        if self.kind == Kind::Move && !self.failed {
            self.phase = Phase::Removing;
        } else {
            assert(self.index < len);
            let next = self.index + 1;
            self.begin(next, notices);
        }
    }

    /// Takes in how the operation went that the transfer asked for, and
    /// gives what is to be published: see `spec_step`.
    pub fn step(&mut self, event: Event) -> (notices: Vec<Notice>)
        requires
            old(self).wf(),
        ensures
            final(self).wf(),
            final(self).kind == old(self).kind,
            final(self).sources == old(self).sources,
            final(self).dst_dir == old(self).dst_dir,
            final(self).holds(old(self).spec_step(event)),
            notes_of(notices@) == old(self).spec_step(event).notes,
            notices@.len() == old(self).spec_step(event).notes.len(),
            forall|i: int| 0 <= i < notices@.len() ==> (#[trigger] notices@[i])@ == old(self).spec_step(event).notes[i],
    {
        let mut notices: Vec<Notice> = Vec::new();
        assert(notes_of(notices@) =~= Seq::<Note>::empty());
        let len = self.sources.len();
        assert(self.phase != Phase::Done ==> self.index < len);
        match (self.phase, event) {
            (Phase::Planning, Event::Sized(Ok(n))) => {
                self.sizes.push(Some(n));
                self.total = Self::add(self.total, n);
                self.plan_on(&mut notices);
            },
            (Phase::Planning, Event::Sized(Err(m))) => {
                notices.push(Notice::Error(m));
                assert(notes_of(notices@) =~= seq![Note::Error(m@)]);
                match self.kind {
                    Kind::Remove => {
                        self.sizes.push(None);
                        self.plan_on(&mut notices);
                    },
                    _ => {
                        self.phase = Phase::Done;
                    },
                }
            },
            (Phase::Naming, Event::Exists(true)) => {
                if self.count < u64::MAX {
                    self.count = self.count + 1;
                    self.place();
                } else {
                    notices.push(Notice::Error(String::from_str("No free name is left")));
                    assert(notes_of(notices@) =~= seq![Note::Error("No free name is left"@)]);
                    let next = self.index + 1;
                    self.begin(next, &mut notices);
                }
            },
            (Phase::Naming, Event::Exists(false)) => {
                self.phase = if self.kind == Kind::Move {
                    Phase::Renaming
                } else {
                    Phase::Probing
                };
            },
            (Phase::Renaming, Event::Renamed(true)) => {
                let bytes = self.size_here();
                self.account(bytes, &mut notices);
                let next = self.index + 1;
                self.begin(next, &mut notices);
            },
            (Phase::Renaming, Event::Renamed(false)) => {
                self.phase = Phase::Probing;
            },
            (Phase::Probing, Event::Link(true)) => {
                self.phase = Phase::Linking;
            },
            (Phase::Probing, Event::Link(false)) => {
                self.phase = Phase::Opening;
            },
            (Phase::Linking, Event::Linked(Ok(_))) => {
                self.after_copy(&mut notices);
            },
            (Phase::Linking, Event::Linked(Err(m))) => {
                self.failed = true;
                notices.push(Notice::Error(m));
                assert(notes_of(notices@) =~= seq![Note::Error(m@)]);
                self.after_copy(&mut notices);
            },
            (Phase::Opening, Event::Entry(Some(Ok(n)))) | (Phase::Walking, Event::Entry(Some(Ok(n)))) => {
                self.phase = Phase::Walking;
                self.account(n, &mut notices);
            },
            (Phase::Opening, Event::Entry(Some(Err(m)))) | (Phase::Walking, Event::Entry(Some(Err(m)))) => {
                self.phase = Phase::Walking;
                self.failed = true;
                notices.push(Notice::Error(m));
                assert(notes_of(notices@) =~= seq![Note::Error(m@)]);
            },
            (Phase::Opening, Event::Entry(None)) | (Phase::Walking, Event::Entry(None)) => {
                self.after_copy(&mut notices);
            },
            (Phase::Removing, Event::Removed(Ok(_))) => {
                if self.kind == Kind::Remove {
                    let bytes = self.size_here();
                    self.account(bytes, &mut notices);
                }
                let next = self.index + 1;
                self.begin(next, &mut notices);
            },
            (Phase::Removing, Event::Removed(Err(m))) => {
                if !self.failed {
                    notices.push(Notice::Error(m));
                    assert(notes_of(notices@) =~= seq![Note::Error(m@)]);
                }
                let next = self.index + 1;
                self.begin(next, &mut notices);
            },
            _ => {},
        }
        proof {
            assert(notes_of(notices@).len() == notices@.len());
            assert forall|i: int| 0 <= i < notices@.len() implies (#[trigger] notices@[i])@ == old(self).spec_step(
                event,
            ).notes[i] by {
                assert(notes_of(notices@)[i] == notices@[i]@);
            }
        }
        notices
    }
}

/// A transfer that is over stays over, and has nothing more to say.
pub proof fn lemma_done_stays(t: Transfer, event: Event)
    requires
        t.phase == Phase::Done,
    ensures
        t.spec_step(event) == t.outcome(),
        t.spec_step(event).notes.len() == 0,
{
}

/// A path that cannot be removed does not stop a deletion: the error is
/// reported, once, and the transfer goes on to the next path, or ends as it
/// would have. Where the error of the path was reported when its size was
/// asked for, nothing more is said.
pub proof fn lemma_removal_goes_on(t: Transfer, m: String)
    requires
        t.wf(),
        t.phase == Phase::Removing,
    ensures
        ({
            let o = t.spec_step(Event::Removed(Err(m)));
            let said = if t.failed {
                Seq::<Note>::empty()
            } else {
                seq![Note::Error(m@)]
            };
            &&& o.index == t.index + 1
            &&& o.pending == t.pending
            &&& if t.index + 1 < t.sources@.len() {
                &&& o.notes == said
                &&& o.phase == if t.kind == Kind::Remove {
                    Phase::Removing
                } else {
                    Phase::Naming
                }
            } else {
                &&& o.notes == said.push(Note::Total(0))
                &&& o.phase == Phase::Done
            }
        }),
{
    let o = t.spec_step(Event::Removed(Err(m)));
    if t.index + 1 >= t.sources@.len() {
        if t.failed {
            assert(o.notes =~= Seq::<Note>::empty().push(Note::Total(0)));
        } else {
            assert(o.notes =~= seq![Note::Error(m@)].push(Note::Total(0)));
        }
    }
}

/// A path whose size cannot be taken does not stop a deletion: the error
/// is reported, once, the path counts nothing, and the transfer goes on
/// to ask for the next size, or to remove the first path.
pub proof fn lemma_sizing_goes_on(t: Transfer, m: String)
    requires
        t.wf(),
        t.phase == Phase::Planning,
        t.kind == Kind::Remove,
    ensures
        ({
            let o = t.spec_step(Event::Sized(Err(m)));
            &&& o.notes[0] == Note::Error(m@)
            &&& o.total == t.total
            &&& o.sizes == t.sizes@.push(None)
            &&& if t.index + 1 < t.sources@.len() {
                o.phase == Phase::Planning && o.index == t.index + 1 && o.notes.len() == 1
            } else {
                o.phase == Phase::Removing && o.index == 0 && o.notes == seq![Note::Error(m@), Note::Total(t.total)]
            }
        }),
{
    let o = t.spec_step(Event::Sized(Err(m)));
    if t.index + 1 >= t.sources@.len() {
        assert(o.notes =~= seq![Note::Error(m@), Note::Total(t.total)]);
    }
}

/// A copy or a move whose sizes cannot all be taken does nothing: the
/// error is reported and the transfer is over.
pub proof fn lemma_sizing_ends_a_copy(t: Transfer, m: String)
    requires
        t.wf(),
        t.phase == Phase::Planning,
        t.kind != Kind::Remove,
    ensures
        t.spec_step(Event::Sized(Err(m))).phase == Phase::Done,
        t.spec_step(Event::Sized(Err(m))).notes == seq![Note::Error(m@)],
{
}

/// An entry that cannot be copied does not stop the copy of its tree: the
/// error is reported, once, and the walk goes on.
pub proof fn lemma_copy_goes_on(t: Transfer, m: String)
    requires
        t.wf(),
        t.phase == Phase::Opening || t.phase == Phase::Walking,
    ensures
        t.spec_step(Event::Entry(Some(Err(m)))).notes == seq![Note::Error(m@)],
        t.spec_step(Event::Entry(Some(Err(m)))).phase == Phase::Walking,
        t.spec_step(Event::Entry(Some(Err(m)))).index == t.index,
        t.spec_step(Event::Entry(Some(Err(m)))).failed,
{
}

/// Once the sizes are taken, only the last step of a transfer says that
/// it is over, and it says so last.
pub proof fn lemma_total_zero_ends(t: Transfer, event: Event, i: int)
    requires
        t.wf(),
        0 <= i < t.spec_step(event).notes.len(),
        t.spec_step(event).notes[i] == Note::Total(0),
        t.phase != Phase::Planning,
    ensures
        t.spec_step(event).phase == Phase::Done,
        i == t.spec_step(event).notes.len() - 1,
{
}

/// What has gathered stays below what is published at once.
pub proof fn lemma_pending_stays_small(t: Transfer, event: Event)
    requires
        t.wf(),
    ensures
        !due(t.spec_step(event).pending),
{
}

/// The first names that are tried for a destination: the name itself,
/// then the name with `.~1~` behind it, then with `.~2~`.
pub proof fn lemma_first_candidates(name: Seq<char>)
    ensures
        candidate(name, 0) == name,
        candidate(name, 1) == name + seq!['.', '~', '1', '~'],
        candidate(name, 2) == name + seq!['.', '~', '2', '~'],
{
    assert(decimal_of(1) =~= seq!['1']);
    assert(decimal_of(2) =~= seq!['2']);
    assert(candidate(name, 1) =~= name + seq!['.', '~', '1', '~']);
    assert(candidate(name, 2) =~= name + seq!['.', '~', '2', '~']);
}

/// One entry of a tree, as a walk over the tree found it: whether it is
/// a symbolic link, and its length in bytes.
#[derive(Debug, Copy, Clone)]
pub struct Found {
    pub link: bool,
    pub len: u64,
}

/// The bytes of a tree: the lengths of its entries together; a symbolic
/// link counts nothing.
pub open spec fn tree_bytes(entries: Seq<Found>) -> nat
    decreases entries.len(),
{
    if entries.len() == 0 {
        0
    } else {
        tree_bytes(entries.drop_last()) + if entries.last().link {
            0nat
        } else {
            entries.last().len as nat
        }
    }
}

/// The bytes of a tree, held at the greatest count there is: see `tree_bytes`.
pub fn tree_size(entries: &Vec<Found>) -> (r: u64)
    ensures
        r == if tree_bytes(entries@) > u64::MAX {
            u64::MAX as nat
        } else {
            tree_bytes(entries@)
        },
{
    let mut sum: u64 = 0;
    let mut i: usize = 0;
    assert(entries@.take(0) =~= Seq::<Found>::empty());
    while i < entries.len()
        invariant
            i <= entries@.len(),
            sum == if tree_bytes(entries@.take(i as int)) > u64::MAX {
                u64::MAX as nat
            } else {
                tree_bytes(entries@.take(i as int))
            },
        decreases entries.len() - i,
    {
        proof {
            assert(entries@.take(i + 1).drop_last() =~= entries@.take(i as int));
            assert(entries@.take(i + 1).last() == entries@[i as int]);
        }
        if !entries[i].link {
            sum = Transfer::add(sum, entries[i].len);
        }
        i += 1;
    }
    assert(entries@.take(i as int) =~= entries@);
    sum
}

} // verus!
