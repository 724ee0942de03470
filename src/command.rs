use vstd::prelude::*;

use crate::storage::{lemma_map_of_entry, lemma_map_of_update, Storage};
use crate::track::{reconciled, transitions_exact, PendingTransition, TrackerSet};

verus! {

/// Why a session-scoped operation was refused.
#[derive(Clone, Copy, Debug, PartialEq, Eq, Structural)]
pub enum CommandEncoderError {
    /// The identity is unknown or stale.
    Invalid,
    /// The session exists but has already finished.
    NotRecording,
}

/// Combined usage of a resource that no transition can reconcile.
#[derive(Clone, Copy, Debug, PartialEq, Eq, Structural)]
pub enum UsageConflict {
    /// A buffer identity and its combined usage bits.
    Buffer(u64, u32),
    /// A texture identity and its combined usage bits.
    Texture(u64, u32),
}

/// The transitions that one pipeline barrier must cover.
pub struct Barriers {
    pub buffers: Vec<PendingTransition>,
    pub textures: Vec<PendingTransition>,
}

/// Options for finishing a session.
#[derive(Debug)]
pub struct CommandBufferDescriptor {
    pub label: Option<String>,
}

/// A recording session: its backend command buffers (the last one is the
/// active one), its state and its authoritative trackers.
pub struct CommandBuffer<R> {
    pub raw: Vec<R>,
    pub is_recording: bool,
    /// The thread that began recording.
    pub recorded_thread: u64,
    pub device_id: u64,
    pub trackers: TrackerSet,
    /// The swap chain whose acquired frame this session uses, if any.
    pub used_swap_chain: Option<u64>,
}

impl<R> CommandBuffer<R> {
    pub open spec fn wf(&self) -> bool {
        self.raw@.len() > 0 && self.trackers.wf()
    }

    /// A session that starts recording into `raw`, with nothing tracked yet.
    pub fn new(raw: R, recorded_thread: u64, device_id: u64) -> (r: Self)
        ensures
            r.wf(),
            r.raw@ == seq![raw],
            r.is_recording,
            r.recorded_thread == recorded_thread,
            r.device_id == device_id,
            r.used_swap_chain.is_none(),
            r.trackers.buffers@ == Map::<u64, u32>::empty(),
            r.trackers.textures@ == Map::<u64, u32>::empty(),
            r.trackers.views@ == Set::<u64>::empty(),
    {
        let mut v: Vec<R> = Vec::new();
        v.push(raw);
        CommandBuffer {
            raw: v,
            is_recording: true,
            recorded_thread,
            device_id,
            trackers: TrackerSet::new(),
            used_swap_chain: None,
        }
    }

    /// Finds the session `id` in `storage`, provided it is still recording.
    pub fn get_encoder(storage: &Storage<CommandBuffer<R>>, id: u64) -> (r: Result<
        usize,
        CommandEncoderError,
    >)
        requires
            storage.wf(),
        ensures
            encoder_lookup(storage@, id) matches Err(e) ==> r == Err::<usize, CommandEncoderError>(e),
            encoder_lookup(storage@, id) is Ok ==> r is Ok,
            r matches Ok(i) ==> i < storage.entries@.len() && storage.entries@[i as int].0 == id
                && storage.entries@[i as int].1 == storage@[id],
    {
        match storage.index_of(id) {
            Some(i) => {
                proof {
                    lemma_map_of_entry(storage.entries@, i as int);
                }
                if storage.entries[i].1.is_recording {
                    Ok(i)
                } else {
                    Err(CommandEncoderError::NotRecording)
                }
            },
            None => Err(CommandEncoderError::Invalid),
        }
    }

    /// Reconciles `head` into `base`. Returns the transitions that one
    /// pipeline barrier covering every buffer and image stage must carry, or
    /// `None` when no resource changes usage and no barrier is needed.
    pub fn insert_barriers(base: &mut TrackerSet, head: &TrackerSet) -> (r: Option<Barriers>)
        requires
            old(base).wf(),
            head.wf(),
        ensures
            final(base).wf(),
            reconciled(old(base), head, final(base)),
            match r {
                Some(b) => {
                    &&& transitions_exact(old(base).buffers@, head.buffers@, b.buffers@)
                    &&& transitions_exact(old(base).textures@, head.textures@, b.textures@)
                    &&& b.buffers@.len() + b.textures@.len() > 0
                },
                None => {
                    &&& transitions_exact(old(base).buffers@, head.buffers@, Seq::empty())
                    &&& transitions_exact(old(base).textures@, head.textures@, Seq::empty())
                },
            },
    {
        let buffers = base.buffers.merge_replace(&head.buffers);
        let textures = base.textures.merge_replace(&head.textures);
        base.views.merge_extend(&head.views);
        base.bind_groups.merge_extend(&head.bind_groups);
        base.samplers.merge_extend(&head.samplers);
        base.compute_pipes.merge_extend(&head.compute_pipes);
        base.render_pipes.merge_extend(&head.render_pipes);
        base.bundles.merge_extend(&head.bundles);
        if buffers.len() == 0 && textures.len() == 0 {
            assert(buffers@ =~= Seq::<PendingTransition>::empty());
            assert(textures@ =~= Seq::<PendingTransition>::empty());
            None
        } else {
            Some(Barriers { buffers, textures })
        }
    }
}

/// What looking up a recording session `id` gives: `Ok` when it is recording.
pub open spec fn encoder_lookup<R>(sessions: Map<u64, CommandBuffer<R>>, id: u64) -> Result<
    (),
    CommandEncoderError,
> {
    if !sessions.contains_key(id) {
        Err(CommandEncoderError::Invalid)
    } else if !sessions[id].is_recording {
        Err(CommandEncoderError::NotRecording)
    } else {
        Ok(())
    }
}

/// A swap chain, as far as finishing a session needs it.
#[derive(Clone, Copy, Debug, PartialEq, Eq, Structural)]
pub struct SwapChain {
    /// The view of the frame acquired from it and not yet presented.
    pub acquired_view_id: Option<u64>,
}

/// A debug annotation for a backend command buffer.
#[derive(Debug, PartialEq, Eq)]
pub enum DebugMarker {
    /// Opens a group with this label.
    Begin(String),
    /// Inserts a marker with this label.
    Insert(String),
    /// Closes the innermost group.
    End,
}

/// A debug annotation and the backend command buffer of the session, by
/// position, that it goes to.
#[derive(Debug, PartialEq, Eq)]
pub struct MarkerCommand {
    pub raw_index: usize,
    pub marker: DebugMarker,
}

/// The tables of recording sessions and of swap chains.
pub struct Global<R> {
    pub command_buffers: Storage<CommandBuffer<R>>,
    pub swap_chains: Storage<SwapChain>,
}

/// `after` is the session `before` once finished, no longer tracking the
/// view `retired`.
pub open spec fn finished_from<R>(
    before: CommandBuffer<R>,
    after: CommandBuffer<R>,
    retired: Option<u64>,
) -> bool {
    &&& !after.is_recording
    &&& after.raw == before.raw
    &&& after.recorded_thread == before.recorded_thread
    &&& after.device_id == before.device_id
    &&& after.used_swap_chain == before.used_swap_chain
    &&& after.trackers.buffers@ == before.trackers.buffers@
    &&& after.trackers.textures@ == before.trackers.textures@
    &&& after.trackers.views@ == match retired {
        Some(v) => before.trackers.views@.remove(v),
        None => before.trackers.views@,
    }
    &&& after.trackers.bind_groups@ == before.trackers.bind_groups@
    &&& after.trackers.samplers@ == before.trackers.samplers@
    &&& after.trackers.compute_pipes@ == before.trackers.compute_pipes@
    &&& after.trackers.render_pipes@ == before.trackers.render_pipes@
    &&& after.trackers.bundles@ == before.trackers.bundles@
}

/// `after` and `r` are what finishing session `id` of `before` gives: an
/// error and nothing changed when the session is unknown or finished;
/// otherwise its identity, the session finished, and every other session and
/// every swap chain as they were.
pub open spec fn finish_outcome<R>(
    before: Global<R>,
    id: u64,
    after: Global<R>,
    r: Result<u64, CommandEncoderError>,
) -> bool {
    &&& after.swap_chains@ == before.swap_chains@
    &&& after.command_buffers@.dom() == before.command_buffers@.dom()
    &&& forall|other: u64|
        other != id && #[trigger] before.command_buffers@.contains_key(other)
            ==> after.command_buffers@[other] == before.command_buffers@[other]
    &&& match encoder_lookup(before.command_buffers@, id) {
        Err(e) => {
            &&& r == Err::<u64, CommandEncoderError>(e)
            &&& after.command_buffers@ == before.command_buffers@
        },
        Ok(_) => {
            &&& r == Ok::<u64, CommandEncoderError>(id)
            &&& finished_from(
                before.command_buffers@[id],
                after.command_buffers@[id],
                before.retired_view(id),
            )
        },
    }
}

/// Finishing two sessions with distinct identities one after the other: the
/// second call sees its session, its lookup and its swap chain as they were
/// before the first, so it acts as it would have alone; and it leaves the
/// session finished by the first as the first left it.
pub proof fn lemma_finish_independent<R>(
    g0: Global<R>,
    a: u64,
    g1: Global<R>,
    ra: Result<u64, CommandEncoderError>,
    b: u64,
    g2: Global<R>,
    rb: Result<u64, CommandEncoderError>,
)
    requires
        a != b,
        finish_outcome(g0, a, g1, ra),
        finish_outcome(g1, b, g2, rb),
    ensures
        encoder_lookup(g1.command_buffers@, b) == encoder_lookup(g0.command_buffers@, b),
        g0.command_buffers@.contains_key(b) ==> g1.command_buffers@[b] == g0.command_buffers@[b],
        g0.command_buffers@.contains_key(b) ==> g1.retired_view(b) == g0.retired_view(b),
        g1.command_buffers@.contains_key(a) ==> g2.command_buffers@[a] == g1.command_buffers@[a],
{
}

impl<R> Global<R> {
    pub open spec fn wf(&self) -> bool {
        &&& self.command_buffers.wf()
        &&& self.swap_chains.wf()
        &&& forall|id: u64| #[trigger]
            self.command_buffers@.contains_key(id) ==> self.command_buffers@[id].wf()
    }

    /// The view that finishing session `id` stops tracking: the frame it
    /// acquired from its swap chain, if it uses one.
    pub open spec fn retired_view(&self, id: u64) -> Option<u64> {
        match self.command_buffers@[id].used_swap_chain {
            Some(sc) => self.swap_chains@[sc].acquired_view_id,
            None => None,
        }
    }

    /// A recording session that uses a swap chain finds it known, with a
    /// frame acquired.
    pub open spec fn swap_chain_ready(&self, id: u64) -> bool {
        encoder_lookup(self.command_buffers@, id) is Ok ==> match self.command_buffers@[id].used_swap_chain {
            Some(sc) => self.swap_chains@.contains_key(sc) && self.swap_chains@[sc].acquired_view_id is Some,
            None => true,
        }
    }

    /// Empty tables.
    pub fn new() -> (r: Self)
        ensures
            r.wf(),
            r.command_buffers@ == Map::<u64, CommandBuffer<R>>::empty(),
            r.swap_chains@ == Map::<u64, SwapChain>::empty(),
    {
        Global { command_buffers: Storage::new(), swap_chains: Storage::new() }
    }

    /// Ends the recording of session `encoder_id` and returns its identity.
    /// A frame acquired from a swap chain stops being tracked by the session.
    /// Sessions other than `encoder_id` are left as they are.
    pub fn command_encoder_finish(&mut self, encoder_id: u64, _desc: &CommandBufferDescriptor) -> (r:
        Result<u64, CommandEncoderError>)
        requires
            old(self).wf(),
            old(self).swap_chain_ready(encoder_id),
        ensures
            final(self).wf(),
            finish_outcome(*old(self), encoder_id, *final(self), r),
    {
        let i = match CommandBuffer::get_encoder(&self.command_buffers, encoder_id) {
            Ok(i) => i,
            Err(e) => {
                return Err(e);
            },
        };
        let ghost entries0 = self.command_buffers.entries@;
        let retired = match self.command_buffers.entries[i].1.used_swap_chain {
            Some(sc) => match self.swap_chains.get(sc) {
                Some(chain) => chain.acquired_view_id,
                None => None,
            },
            None => None,
        };
        self.command_buffers.entries[i].1.is_recording = false;
        match retired {
            Some(view) => {
                self.command_buffers.entries[i].1.trackers.views.remove(view);
            },
            None => {},
        }
        proof {
            let entries1 = self.command_buffers.entries@;
            assert(entries1 == entries0.update(i as int, (encoder_id, entries1[i as int].1)));
            lemma_map_of_update(entries0, i as int, entries1[i as int].1);
            assert(self.command_buffers@.dom() =~= old(self).command_buffers@.dom());
        }
        Ok(encoder_id)
    }

    /// The position of the active backend command buffer of session
    /// `encoder_id`: the last one appended.
    fn active_raw_index(&self, encoder_id: u64) -> (r: Result<usize, CommandEncoderError>)
        requires
            self.wf(),
        ensures
            match encoder_lookup(self.command_buffers@, encoder_id) {
                Err(e) => r == Err::<usize, CommandEncoderError>(e),
                Ok(_) => r == Ok::<usize, CommandEncoderError>(
                    (self.command_buffers@[encoder_id].raw@.len() - 1) as usize,
                ),
            },
    {
        let i = match CommandBuffer::get_encoder(&self.command_buffers, encoder_id) {
            Ok(i) => i,
            Err(e) => {
                return Err(e);
            },
        };
        Ok(self.command_buffers.entries[i].1.raw.len() - 1)
    }

    /// Opens a debug group labelled `label` in the active backend command
    /// buffer of session `encoder_id`.
    pub fn command_encoder_push_debug_group(&self, encoder_id: u64, label: &str) -> (r: Result<
        MarkerCommand,
        CommandEncoderError,
    >)
        requires
            self.wf(),
        ensures
            match encoder_lookup(self.command_buffers@, encoder_id) {
                Err(e) => r == Err::<MarkerCommand, CommandEncoderError>(e),
                Ok(_) => {
                    &&& r is Ok
                    &&& r->Ok_0.raw_index == (self.command_buffers@[encoder_id].raw@.len() - 1) as usize
                    &&& r->Ok_0.marker is Begin
                    &&& r->Ok_0.marker->Begin_0@ == label@
                },
            },
    {
        let raw_index = match self.active_raw_index(encoder_id) {
            Ok(i) => i,
            Err(e) => {
                return Err(e);
            },
        };
        Ok(MarkerCommand { raw_index, marker: DebugMarker::Begin(label.to_owned()) })
    }

    /// Inserts a debug marker labelled `label` in the active backend command
    /// buffer of session `encoder_id`.
    pub fn command_encoder_insert_debug_marker(&self, encoder_id: u64, label: &str) -> (r: Result<
        MarkerCommand,
        CommandEncoderError,
    >)
        requires
            self.wf(),
        ensures
            match encoder_lookup(self.command_buffers@, encoder_id) {
                Err(e) => r == Err::<MarkerCommand, CommandEncoderError>(e),
                Ok(_) => {
                    &&& r is Ok
                    &&& r->Ok_0.raw_index == (self.command_buffers@[encoder_id].raw@.len() - 1) as usize
                    &&& r->Ok_0.marker is Insert
                    &&& r->Ok_0.marker->Insert_0@ == label@
                },
            },
    {
        let raw_index = match self.active_raw_index(encoder_id) {
            Ok(i) => i,
            Err(e) => {
                return Err(e);
            },
        };
        Ok(MarkerCommand { raw_index, marker: DebugMarker::Insert(label.to_owned()) })
    }

    /// Closes the innermost debug group in the active backend command buffer
    /// of session `encoder_id`.
    pub fn command_encoder_pop_debug_group(&self, encoder_id: u64) -> (r: Result<
        MarkerCommand,
        CommandEncoderError,
    >)
        requires
            self.wf(),
        ensures
            match encoder_lookup(self.command_buffers@, encoder_id) {
                Err(e) => r == Err::<MarkerCommand, CommandEncoderError>(e),
                Ok(_) => r == Ok::<MarkerCommand, CommandEncoderError>(
                    MarkerCommand {
                        raw_index: (self.command_buffers@[encoder_id].raw@.len() - 1) as usize,
                        marker: DebugMarker::End,
                    },
                ),
            },
    {
        let raw_index = match self.active_raw_index(encoder_id) {
            Ok(i) => i,
            Err(e) => {
                return Err(e);
            },
        };
        Ok(MarkerCommand { raw_index, marker: DebugMarker::End })
    }
}

} // verus!
