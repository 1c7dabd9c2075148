//! The packet capture buffer behind the packet manager window.
use vstd::prelude::*;
use crate::text::{
    chars_of, contains_exec, contains_seq, lowercase_of, string_from_chars, to_lowercase,
};

verus! {

/// How many packets the buffer keeps.
pub const CAPACITY: usize = 512;

/// Which way a packet travelled.
#[derive(Clone, Copy, PartialEq, Eq, Debug, Structural)]
pub enum Direction {
    Out,
    In,
}

/// A captured packet. `raw` is the caller's handle on the packet object.
pub struct CapturedPacket<R> {
    pub id: u64,
    pub direction: Direction,
    /// Microseconds between the start of the capture and this packet.
    pub elapsed_micros: u64,
    pub class_name: String,
    pub cancelled: bool,
    pub raw: R,
    pub fields: Option<Vec<(String, String)>>,
}

/// The capture buffer and the filter settings of the packet manager.
pub struct PacketCapture<R> {
    pub buf: Vec<CapturedPacket<R>>,
    pub next_id: u64,
    pub enabled: bool,
    pub paused: bool,
    pub show_out: bool,
    pub show_in: bool,
    pub search: String,
    pub selected_id: Option<u64>,
}

/// `n + 1`, wrapping to 0 after the largest `u64`.
pub open spec fn wrapping_next(n: u64) -> u64 {
    if n == u64::MAX {
        0
    } else {
        (n + 1) as u64
    }
}

/// The buffer after a packet arrives: the oldest leaves when the buffer is
/// full, the new one goes last.
pub open spec fn pushed<R>(buf: Seq<CapturedPacket<R>>, p: CapturedPacket<R>) -> Seq<CapturedPacket<R>> {
    (if buf.len() >= CAPACITY {
        buf.drop_first()
    } else {
        buf
    }).push(p)
}

/// A packet passes the direction and search filters; `q` is the lowercased
/// search text.
pub open spec fn is_visible<R>(p: CapturedPacket<R>, show_out: bool, show_in: bool, q: Seq<char>) -> bool {
    &&& match p.direction {
        Direction::Out => show_out,
        Direction::In => show_in,
    }
    &&& (q.len() == 0 || contains_seq(lowercase_of(p.class_name@), q))
}

/// The ids of the visible packets, newest first.
pub open spec fn visible_ids_of<R>(buf: Seq<CapturedPacket<R>>, show_out: bool, show_in: bool, q: Seq<char>) -> Seq<u64>
    decreases buf.len(),
{
    if buf.len() == 0 {
        Seq::empty()
    } else {
        let p = buf.last();
        (if is_visible(p, show_out, show_in, q) {
            seq![p.id]
        } else {
            Seq::empty()
        }) + visible_ids_of(buf.drop_last(), show_out, show_in, q)
    }
}

/// The first position at or after `i` of a packet with this id.
pub open spec fn packet_index_from<R>(buf: Seq<CapturedPacket<R>>, id: u64, i: int) -> Option<int>
    decreases buf.len() - i,
{
    if i < 0 || i >= buf.len() {
        None
    } else if buf[i].id == id {
        Some(i)
    } else {
        packet_index_from(buf, id, i + 1)
    }
}

pub proof fn lemma_packet_index_from<R>(buf: Seq<CapturedPacket<R>>, id: u64, i: int)
    requires
        0 <= i,
    ensures
        packet_index_from(buf, id, i) matches Some(j) ==> i <= j < buf.len() && buf[j].id == id,
    decreases buf.len() - i,
{
    if i < buf.len() && buf[i].id != id {
        lemma_packet_index_from(buf, id, i + 1);
    }
}

/// Ids rise along the buffer and stay below the next id.
pub open spec fn ids_rising<R>(buf: Seq<CapturedPacket<R>>, next_id: u64) -> bool {
    &&& forall|i: int, j: int| #![trigger buf[i], buf[j]] 0 <= i < j < buf.len() ==> buf[i].id < buf[j].id
    &&& forall|i: int| 0 <= i < buf.len() ==> (#[trigger] buf[i]).id < next_id
}

/// While the id counter has not wrapped, a push keeps the ids rising: the
/// newest packet has the largest id, and ids never repeat.
pub proof fn lemma_push_keeps_ids_rising<R>(buf: Seq<CapturedPacket<R>>, next_id: u64, p: CapturedPacket<R>)
    requires
        ids_rising(buf, next_id),
        next_id < u64::MAX,
        p.id == next_id,
    ensures
        ids_rising(pushed(buf, p), wrapping_next(next_id)),
{
    let b = if buf.len() >= CAPACITY {
        buf.drop_first()
    } else {
        buf
    };
    assert forall|i: int, j: int| 0 <= i < j < b.len() implies #[trigger] b[i].id < #[trigger] b[j].id by {
        if buf.len() >= CAPACITY {
            assert(b[i] == buf[i + 1]);
            assert(b[j] == buf[j + 1]);
        }
    }
    assert forall|i: int| 0 <= i < b.len() implies (#[trigger] b[i]).id < next_id by {
        if buf.len() >= CAPACITY {
            assert(b[i] == buf[i + 1]);
        }
    }
    let r = b.push(p);
    assert forall|i: int, j: int| 0 <= i < j < r.len() implies #[trigger] r[i].id < #[trigger] r[j].id by {
        if j == b.len() {
            assert(r[i] == b[i]);
        } else {
            assert(r[i] == b[i]);
            assert(r[j] == b[j]);
        }
    }
    assert forall|i: int| 0 <= i < r.len() implies (#[trigger] r[i]).id < wrapping_next(next_id) by {
        if i < b.len() {
            assert(r[i] == b[i]);
        }
    }
}

/// What a push does to a capture: with capture off or paused nothing
/// changes; otherwise the packet is appended under the next id (see
/// `pushed`) and the id counter moves on. The filters and the selection
/// stay as they were.
pub open spec fn records<R>(
    before: PacketCapture<R>,
    after: PacketCapture<R>,
    direction: Direction,
    class_name: String,
    raw: R,
    cancelled: bool,
    elapsed_micros: u64,
) -> bool {
    &&& after.enabled == before.enabled
    &&& after.paused == before.paused
    &&& after.show_out == before.show_out
    &&& after.show_in == before.show_in
    &&& after.search == before.search
    &&& after.selected_id == before.selected_id
    &&& (!before.enabled || before.paused ==> after.packets() == before.packets()
        && after.next_packet_id() == before.next_packet_id())
    &&& (before.enabled && !before.paused ==> {
        &&& after.next_packet_id() == wrapping_next(before.next_packet_id())
        &&& after.packets() == pushed(
            before.packets(),
            CapturedPacket {
                id: before.next_packet_id(),
                direction,
                elapsed_micros,
                class_name,
                cancelled,
                raw,
                fields: None,
            },
        )
    })
}

/// Records an outgoing packet (see `PacketCapture::push`).
pub fn push_out<R>(cap: &mut PacketCapture<R>, class_name: String, raw: R, cancelled: bool, elapsed_micros: u64)
    requires
        old(cap).wf(),
    ensures
        final(cap).wf(),
        records(*old(cap), *final(cap), Direction::Out, class_name, raw, cancelled, elapsed_micros),
{
    cap.push(Direction::Out, class_name, raw, cancelled, elapsed_micros);
}

/// Records an incoming packet, which is never cancelled (see
/// `PacketCapture::push`).
pub fn push_in<R>(cap: &mut PacketCapture<R>, class_name: String, raw: R, elapsed_micros: u64)
    requires
        old(cap).wf(),
    ensures
        final(cap).wf(),
        records(*old(cap), *final(cap), Direction::In, class_name, raw, false, elapsed_micros),
{
    cap.push(Direction::In, class_name, raw, false, elapsed_micros);
}

impl<R> PacketCapture<R> {
    /// The captured packets, oldest first.
    pub open spec fn packets(&self) -> Seq<CapturedPacket<R>> {
        self.buf@
    }

    /// The id the next packet gets.
    pub open spec fn next_packet_id(&self) -> u64 {
        self.next_id
    }

    /// The buffer never holds more than its capacity.
    pub open spec fn wf(&self) -> bool {
        self.packets().len() <= CAPACITY
    }

    /// An empty buffer capturing both directions, unfiltered.
    pub fn new() -> (r: Self)
        ensures
            r.wf(),
            r.packets().len() == 0,
            r.next_packet_id() == 0,
            r.enabled,
            !r.paused,
            r.show_out,
            r.show_in,
            r.search@.len() == 0,
            r.selected_id is None,
    {
        PacketCapture {
            buf: Vec::new(),
            next_id: 0,
            enabled: true,
            paused: false,
            show_out: true,
            show_in: true,
            search: String::new(),
            selected_id: None,
        }
    }

    /// Records a packet, unless capture is off or paused. It gets the next
    /// id; the oldest packet leaves when the buffer is full.
    pub fn push(&mut self, direction: Direction, class_name: String, raw: R, cancelled: bool, elapsed_micros: u64)
        requires
            old(self).wf(),
        ensures
            final(self).wf(),
            records(*old(self), *final(self), direction, class_name, raw, cancelled, elapsed_micros),
    {
        if !self.enabled || self.paused {
            return;
        }
        let id = self.next_id;
        self.next_id = self.next_id.wrapping_add(1);
        if self.buf.len() >= CAPACITY {
            let _ = self.buf.remove(0);
        }
        self.buf.push(CapturedPacket {
            id,
            direction,
            elapsed_micros,
            class_name,
            cancelled,
            raw,
            fields: None,
        });
    }

    /// Drops every packet and the selection.
    pub fn clear(&mut self)
        ensures
            final(self).packets().len() == 0,
            final(self).selected_id is None,
            final(self).next_packet_id() == old(self).next_packet_id(),
            final(self).enabled == old(self).enabled,
            final(self).paused == old(self).paused,
            final(self).show_out == old(self).show_out,
            final(self).show_in == old(self).show_in,
            final(self).search == old(self).search,
    {
        self.buf.clear();
        self.selected_id = None;
    }

    /// How many packets are held.
    pub fn len(&self) -> (r: usize)
        ensures
            r == self.packets().len(),
    {
        self.buf.len()
    }

    /// The ids of the packets that pass the direction filters and whose
    /// lowercased type name holds the lowercased search text, newest first.
    pub fn visible_ids(&self) -> (r: Vec<u64>)
        ensures
            r@ == visible_ids_of(self.packets(), self.show_out, self.show_in, lowercase_of(self.search@)),
    {
        let ql = to_lowercase(self.search.as_str());
        let q = chars_of(ql.as_str());
        let ghost qv = q@;
        let mut out: Vec<u64> = Vec::new();
        let mut k: usize = self.buf.len();
        assert(self.buf@.take(k as int) =~= self.buf@);
        while k > 0
            invariant
                k <= self.buf@.len(),
                qv == lowercase_of(self.search@),
                q@ == qv,
                visible_ids_of(self.buf@, self.show_out, self.show_in, qv) == out@
                    + visible_ids_of(self.buf@.take(k as int), self.show_out, self.show_in, qv),
            decreases k,
        {
            let p = &self.buf[k - 1];
            let dir_ok = match p.direction {
                Direction::Out => self.show_out,
                Direction::In => self.show_in,
            };
            let matched = if q.len() == 0 {
                true
            } else {
                let tl = to_lowercase(p.class_name.as_str());
                let tc = chars_of(tl.as_str());
                contains_exec(tc.as_slice(), q.as_slice())
            };
            proof {
                let t = self.buf@.take(k as int);
                assert(t.drop_last() =~= self.buf@.take(k - 1));
                assert(t.last() == *p);
            }
            let ghost before = out@;
            if dir_ok && matched {
                out.push(p.id);
                assert(out@ + visible_ids_of(self.buf@.take(k - 1), self.show_out, self.show_in, qv)
                    =~= before + visible_ids_of(self.buf@.take(k as int), self.show_out, self.show_in, qv));
            } else {
                assert(out@ + visible_ids_of(self.buf@.take(k - 1), self.show_out, self.show_in, qv)
                    =~= before + visible_ids_of(self.buf@.take(k as int), self.show_out, self.show_in, qv));
            }
            k -= 1;
        }
        assert(out@ =~= out@ + visible_ids_of(self.buf@.take(0), self.show_out, self.show_in, qv));
        out
    }

    /// The oldest packet with this id.
    pub fn get(&self, id: u64) -> (r: Option<&CapturedPacket<R>>)
        ensures
            match packet_index_from(self.packets(), id, 0) {
                Some(i) => r matches Some(p) && *p == self.packets()[i],
                None => r is None,
            },
    {
        proof {
            lemma_packet_index_from(self.buf@, id, 0);
        }
        let mut i: usize = 0;
        while i < self.buf.len()
            invariant
                i <= self.buf@.len(),
                packet_index_from(self.buf@, id, 0) == packet_index_from(self.buf@, id, i as int),
            decreases self.buf@.len() - i,
        {
            if self.buf[i].id == id {
                return Some(&self.buf[i]);
            }
            i += 1;
        }
        None
    }

    /// The packet whose fields are to be read by reflection: the selected
    /// one, when it is in the buffer and its fields are not read yet.
    pub fn reflection_target(&self) -> (r: Option<u64>)
        ensures
            r == match self.selected_id {
                Some(id) => match packet_index_from(self.packets(), id, 0) {
                    Some(i) => if self.packets()[i].fields is None {
                        Some(id)
                    } else {
                        None
                    },
                    None => None,
                },
                None => None,
            },
    {
        match self.selected_id {
            Some(id) => match self.get(id) {
                Some(p) => if p.fields.is_none() {
                    Some(id)
                } else {
                    None
                },
                None => None,
            },
            None => None,
        }
    }

    /// Stores the reflected fields of the oldest packet with this id; says
    /// whether there was one.
    pub fn set_fields(&mut self, id: u64, fields: Vec<(String, String)>) -> (found: bool)
        requires
            old(self).wf(),
        ensures
            final(self).wf(),
            final(self).next_packet_id() == old(self).next_packet_id(),
            final(self).enabled == old(self).enabled,
            final(self).paused == old(self).paused,
            final(self).show_out == old(self).show_out,
            final(self).show_in == old(self).show_in,
            final(self).search == old(self).search,
            final(self).selected_id == old(self).selected_id,
            match packet_index_from(old(self).packets(), id, 0) {
                Some(i) => found && final(self).packets() == old(self).packets().update(
                    i,
                    CapturedPacket { fields: Some(fields), ..old(self).packets()[i] },
                ),
                None => !found && final(self).packets() == old(self).packets(),
            },
    {
        proof {
            lemma_packet_index_from(self.buf@, id, 0);
        }
        let mut i: usize = 0;
        while i < self.buf.len()
            invariant
                i <= self.buf@.len(),
                self.buf@ == old(self).buf@,
                self.next_id == old(self).next_id,
                self.enabled == old(self).enabled,
                self.paused == old(self).paused,
                self.show_out == old(self).show_out,
                self.show_in == old(self).show_in,
                self.search == old(self).search,
                self.selected_id == old(self).selected_id,
                old(self).wf(),
                packet_index_from(self.buf@, id, 0) == packet_index_from(self.buf@, id, i as int),
            decreases self.buf@.len() - i,
        {
            if self.buf[i].id == id {
                let p = self.buf.remove(i);
                let updated = CapturedPacket {
                    id: p.id,
                    direction: p.direction,
                    elapsed_micros: p.elapsed_micros,
                    class_name: p.class_name,
                    cancelled: p.cancelled,
                    raw: p.raw,
                    fields: Some(fields),
                };
                self.buf.insert(i, updated);
                assert(self.buf@ =~= old(self).buf@.update(
                    i as int,
                    CapturedPacket { fields: Some(fields), ..old(self).buf@[i as int] },
                ));
                return true;
            }
            i += 1;
        }
        false
    }
}

/// The part of a class name after its last `.`.
pub open spec fn after_last_dot(s: Seq<char>) -> Seq<char>
    decreases s.len(),
{
    if s.len() == 0 {
        s
    } else if s.last() == '.' {
        Seq::empty()
    } else {
        after_last_dot(s.drop_last()).push(s.last())
    }
}

/// `s` with every `$` replaced by `.`.
pub open spec fn dollars_to_dots(s: Seq<char>) -> Seq<char> {
    s.map_values(|c: char| if c == '$' { '.' } else { c })
}

/// A class name without its package, inner classes joined by `.`.
pub fn short_name(full: &str) -> (r: String)
    ensures
        r@ == dollars_to_dots(after_last_dot(full@)),
{
    let c = chars_of(full);
    let mut start: usize = c.len();
    assert(c@.take(start as int) =~= c@);
    assert(after_last_dot(c@) =~= after_last_dot(c@.take(start as int)) + c@.subrange(start as int, c@.len() as int));
    while start > 0 && c[start - 1] != '.'
        invariant
            start <= c@.len(),
            after_last_dot(c@) == after_last_dot(c@.take(start as int)) + c@.subrange(start as int, c@.len() as int),
        decreases start,
    {
        proof {
            let t = c@.take(start as int);
            assert(t.drop_last() =~= c@.take(start - 1));
            assert(c@.subrange(start - 1, c@.len() as int) =~= seq![t.last()] + c@.subrange(start as int, c@.len() as int));
            assert(after_last_dot(t) == after_last_dot(t.drop_last()).push(t.last()));
            assert(after_last_dot(t.drop_last()).push(t.last()) + c@.subrange(start as int, c@.len() as int)
                =~= after_last_dot(c@.take(start - 1)) + c@.subrange(start - 1, c@.len() as int));
        }
        start -= 1;
    }
    proof {
        assert(after_last_dot(c@.take(start as int)) =~= Seq::<char>::empty());
    }
    let mut out: Vec<char> = Vec::new();
    let mut k: usize = start;
    while k < c.len()
        invariant
            start <= k <= c@.len(),
            out@ == dollars_to_dots(c@.subrange(start as int, k as int)),
        decreases c@.len() - k,
    {
        let ch = c[k];
        out.push(if ch == '$' { '.' } else { ch });
        assert(dollars_to_dots(c@.subrange(start as int, k + 1)) =~= out@);
        k += 1;
    }
    assert(c@.take(c@.len() as int) =~= c@);
    string_from_chars(out)
}

} // verus!
