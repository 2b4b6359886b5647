//! Double-buffered, multi-reader event queue.
//!
//! Two generations of events are retained: those published in the current
//! tick and those published in the immediately preceding tick. A tick
//! boundary (`update`) discards the previous generation and starts a fresh
//! current one. Every consumer owns its own cursor (`EventReader`); draining
//! returns each retained event published at or after the cursor exactly once,
//! in publish order, independently of any other consumer's progress.

use crate::geometry::Point2;
use vstd::prelude::*;

verus! {

/// Opaque identity token for a renderable object owned by the host registry.
#[derive(Clone, Copy, PartialEq, Eq, Structural, Hash, Debug)]
pub struct Entity {
    pub id: u64,
}

/// One touched layer-entry in a `Modified` event: the z-order it sits at and
/// the render entity of the entry.
#[derive(Clone, Copy, PartialEq, Eq, Structural, Debug)]
pub struct ModifiedEntry {
    pub z_order: usize,
    pub entity: Entity,
}

/// A chunk lifecycle notification. Events are immutable once published.
#[derive(Debug)]
pub enum TilemapChunkEvent {
    Spawned { point: Point2 },
    Modified { layers: Vec<ModifiedEntry> },
    Despawned { entities: Vec<Entity>, point: Point2 },
}

/// Mathematical model of a published event.
pub enum ChunkEventModel {
    Spawned { point: Point2 },
    Modified { layers: Seq<ModifiedEntry> },
    Despawned { entities: Seq<Entity>, point: Point2 },
}

impl View for TilemapChunkEvent {
    type V = ChunkEventModel;

    open spec fn view(&self) -> ChunkEventModel {
        match self {
            TilemapChunkEvent::Spawned { point } => ChunkEventModel::Spawned { point: *point },
            TilemapChunkEvent::Modified { layers } => ChunkEventModel::Modified {
                layers: layers@,
            },
            TilemapChunkEvent::Despawned { entities, point } => ChunkEventModel::Despawned {
                entities: entities@,
                point: *point,
            },
        }
    }
}

/// Copies a vector of plain values element by element.
fn copy_entries(v: &Vec<ModifiedEntry>) -> (r: Vec<ModifiedEntry>)
    ensures
        r@ == v@,
{
    let mut r: Vec<ModifiedEntry> = Vec::new();
    let mut i: usize = 0;
    while i < v.len()
        invariant
            i <= v.len(),
            r@ == v@.take(i as int),
        decreases v.len() - i,
    {
        r.push(v[i]);
        proof {
            assert(v@.take(i + 1 as int) =~= v@.take(i as int).push(v@[i as int]));
        }
        i = i + 1;
    }
    proof {
        assert(v@.take(v@.len() as int) =~= v@);
    }
    r
}

/// Copies a vector of entities element by element.
pub fn copy_entities(v: &Vec<Entity>) -> (r: Vec<Entity>)
    ensures
        r@ == v@,
{
    let mut r: Vec<Entity> = Vec::new();
    let mut i: usize = 0;
    while i < v.len()
        invariant
            i <= v.len(),
            r@ == v@.take(i as int),
        decreases v.len() - i,
    {
        r.push(v[i]);
        proof {
            assert(v@.take(i + 1 as int) =~= v@.take(i as int).push(v@[i as int]));
        }
        i = i + 1;
    }
    proof {
        assert(v@.take(v@.len() as int) =~= v@);
    }
    r
}

/// Copies an event; the copy has the same model as the source event.
fn copy_event(e: &TilemapChunkEvent) -> (r: TilemapChunkEvent)
    ensures
        r@ == e@,
{
    match e {
        TilemapChunkEvent::Spawned { point } => TilemapChunkEvent::Spawned { point: *point },
        TilemapChunkEvent::Modified { layers } => TilemapChunkEvent::Modified {
            layers: copy_entries(layers),
        },
        TilemapChunkEvent::Despawned { entities, point } => TilemapChunkEvent::Despawned {
            entities: copy_entities(entities),
            point: *point,
        },
    }
}

/// The mathematical model of a sequence of events.
pub open spec fn models(s: Seq<TilemapChunkEvent>) -> Seq<ChunkEventModel> {
    Seq::new(s.len(), |i: int| s[i]@)
}

/// The double-buffered queue itself.
pub struct Events {
    /// Events published in the preceding tick.
    pub previous: Vec<TilemapChunkEvent>,
    /// Events published in the current tick.
    pub current: Vec<TilemapChunkEvent>,
    /// How many events have been discarded by tick rotations; the retained
    /// events begin at this absolute position in the publish history.
    pub discarded: u64,
}

impl Events {
    /// The retained suffix of the publish history, oldest first.
    pub open spec fn log(self) -> Seq<ChunkEventModel> {
        models(self.previous@) + models(self.current@)
    }

    /// Absolute position of the first retained event.
    pub open spec fn base(self) -> nat {
        self.discarded as nat
    }

    /// How many retained events belong to the previous generation.
    pub open spec fn prev_len(self) -> nat {
        self.previous@.len()
    }

    /// Total number of events ever published.
    pub open spec fn total(self) -> nat {
        self.base() + self.log().len()
    }

    pub open spec fn wf(self) -> bool {
        &&& self.total() <= u64::MAX
        &&& self.log().len() <= usize::MAX
    }

    /// Room to publish `n` more events without exhausting the counters.
    pub open spec fn can_publish(self, n: nat) -> bool {
        &&& self.total() + n <= u64::MAX
        &&& self.log().len() + n <= usize::MAX
    }

    /// Where a cursor starts reading inside `log()`: at the first retained
    /// event it has not seen, clamped into the retained window.
    pub open spec fn drain_start(self, cursor: nat) -> int {
        if cursor <= self.base() {
            0
        } else if cursor >= self.total() {
            self.log().len() as int
        } else {
            cursor - self.base()
        }
    }

    /// What a consumer whose cursor stands at `cursor` observes on a drain.
    pub open spec fn drained(self, cursor: nat) -> Seq<ChunkEventModel> {
        self.log().skip(self.drain_start(cursor))
    }

    pub fn new() -> (q: Events)
        ensures
            q.wf(),
            q.log() == Seq::<ChunkEventModel>::empty(),
            q.base() == 0,
            q.prev_len() == 0,
    {
        Events { previous: Vec::new(), current: Vec::new(), discarded: 0 }
    }

    /// Publishes an event into the current generation.
    pub fn publish(&mut self, event: TilemapChunkEvent)
        requires
            old(self).wf(),
            old(self).can_publish(1),
        ensures
            final(self).wf(),
            final(self).log() == old(self).log().push(event@),
            final(self).base() == old(self).base(),
            final(self).prev_len() == old(self).prev_len(),
            final(self).total() == old(self).total() + 1,
    {
        let ghost prior = self.current@;
        self.current.push(event);
        proof {
            assert(models(self.current@) =~= models(prior).push(event@));
            assert(self.log() =~= old(self).log().push(event@));
        }
    }

    /// Tick boundary: discards the previous generation, the current one
    /// becomes previous, and a fresh empty current generation begins.
    pub fn update(&mut self)
        requires
            old(self).wf(),
        ensures
            final(self).wf(),
            final(self).base() == old(self).base() + old(self).prev_len(),
            final(self).log() == old(self).log().skip(old(self).prev_len() as int),
            final(self).prev_len() == old(self).log().len() - old(self).prev_len(),
            final(self).total() == old(self).total(),
    {
        let shed: u64 = self.previous.len() as u64;
        self.discarded = self.discarded + shed;
        core::mem::swap(&mut self.previous, &mut self.current);
        self.current.clear();
        proof {
            assert(self.log() =~= old(self).log().skip(old(self).prev_len() as int));
        }
    }

    /// A fresh consumer cursor; it will observe every retained event.
    pub fn get_reader(&self) -> (r: EventReader)
        ensures
            r.last_count == 0,
    {
        EventReader { last_count: 0 }
    }
}

/// A consumer's private cursor into the publish history.
pub struct EventReader {
    /// How many published events this consumer has already observed.
    pub last_count: u64,
}

impl EventReader {
    /// Returns every retained event at or after this cursor, exactly once, in
    /// publish order, and advances the cursor past everything published. The
    /// queue itself is untouched, so other consumers are unaffected.
    pub fn drain(&mut self, q: &Events) -> (out: Vec<TilemapChunkEvent>)
        requires
            q.wf(),
        ensures
            models(out@) == q.drained(old(self).last_count as nat),
            final(self).last_count == q.total(),
    {
        let plen: usize = q.previous.len();
        let clen: usize = q.current.len();
        let retained: usize = plen + clen;
        let rc: u64 = self.last_count;
        let skip_n: usize = if rc <= q.discarded {
            0
        } else {
            let d: u64 = rc - q.discarded;
            if d >= retained as u64 {
                retained
            } else {
                d as usize
            }
        };
        proof {
            assert(skip_n as int == q.drain_start(old(self).last_count as nat));
        }
        let mut out: Vec<TilemapChunkEvent> = Vec::new();
        let mut i: usize = skip_n;
        while i < retained
            invariant
                skip_n <= i <= retained,
                retained == plen + clen,
                plen == q.previous@.len(),
                clen == q.current@.len(),
                q.wf(),
                models(out@) == q.log().subrange(skip_n as int, i as int),
            decreases retained - i,
        {
            let ghost prior = out@;
            let ev = if i < plen {
                copy_event(&q.previous[i])
            } else {
                copy_event(&q.current[i - plen])
            };
            proof {
                assert(ev@ == q.log()[i as int]);
            }
            out.push(ev);
            proof {
                assert(models(out@) =~= models(prior).push(ev@));
                assert(models(out@) =~= q.log().subrange(skip_n as int, i + 1 as int));
            }
            i = i + 1;
        }
        self.last_count = q.discarded + retained as u64;
        proof {
            assert(q.log().subrange(skip_n as int, retained as int) =~= q.log().skip(
                skip_n as int,
            ));
        }
        out
    }
}

/// Fan-out: two consumers whose cursors stand at the same position observe
/// exactly the same event sequence, whichever of them drains first — draining
/// never changes the queue, only the consumer's own cursor.
pub proof fn lemma_event_fan_out(q: Events, c1: nat, c2: nat)
    requires
        q.wf(),
        c1 == c2,
    ensures
        q.drained(c1) == q.drained(c2),
{
}

/// A consumer that has not fallen behind the retained window loses nothing
/// and duplicates nothing: draining yields every event published at or after
/// its cursor, exactly once, in publish order.
pub proof fn lemma_drain_complete(q: Events, cursor: nat)
    requires
        q.wf(),
        q.base() <= cursor <= q.total(),
    ensures
        q.drained(cursor).len() == q.total() - cursor,
        forall|k: int|
            0 <= k < q.drained(cursor).len() ==> q.drained(cursor)[k] == q.log()[cursor - q.base()
                + k],
{
}

} // verus!
