//! Backend traits and the frame registry. Protocol types never mention the
//! desktop libraries.
use vstd::prelude::*;

pub mod x11;

verus! {

/// A captured frame as a backend hands it over: RGBA, 4 bytes per pixel.
#[derive(Debug, Clone)]
pub struct RawFrame {
    pub monitor_id: String,
    pub source_width: u32,
    pub source_height: u32,
    pub rgba: Vec<u8>,
}

/// One monitor of the desktop.
#[derive(Debug, Clone)]
pub struct MonitorInfo {
    pub monitor_id: String,
    pub source_width: u32,
    pub source_height: u32,
    pub is_primary: bool,
}

/// What a monitor description says.
pub struct MonitorView {
    pub monitor_id: Seq<char>,
    pub source_width: u32,
    pub source_height: u32,
    pub is_primary: bool,
}

impl View for MonitorInfo {
    type V = MonitorView;

    open spec fn view(&self) -> MonitorView {
        MonitorView {
            monitor_id: self.monitor_id@,
            source_width: self.source_width,
            source_height: self.source_height,
            is_primary: self.is_primary,
        }
    }
}

/// Screen capture, implemented per desktop platform.
pub trait ScreenBackend: Send + Sync {
    fn name(&self) -> &'static str;

    fn monitors(&self) -> Result<Vec<MonitorInfo>, String>;

    fn capture(&self, monitor_id: Option<&str>) -> Result<RawFrame, String>;
}

/// Input injection, implemented per desktop platform.
pub trait InputBackend: Send + Sync {
    fn name(&self) -> &'static str;

    fn click(&self, x: u32, y: u32, button: &str) -> Result<(), String>;

    fn type_text(&self, text: &str) -> Result<(), String>;

    fn press(&self, key: &str, modifiers: &[String]) -> Result<(), String>;
}

/// What the host remembers of a frame it handed out. The frame's scale is
/// `scale_num / scale_den` taken as an `f64`: the capture's width bound over
/// the source width, or 1 when the bound is not smaller. `created` is a time
/// in milliseconds on the host's monotonic clock.
#[derive(Debug, Clone)]
pub struct FrameMeta {
    pub monitor_id: String,
    pub source_width: u32,
    pub source_height: u32,
    pub output_width: u32,
    pub output_height: u32,
    pub scale_num: u32,
    pub scale_den: u32,
    pub created: u64,
}

pub struct FrameMetaView {
    pub monitor_id: Seq<char>,
    pub source_width: u32,
    pub source_height: u32,
    pub output_width: u32,
    pub output_height: u32,
    pub scale_num: u32,
    pub scale_den: u32,
    pub created: u64,
}

impl View for FrameMeta {
    type V = FrameMetaView;

    open spec fn view(&self) -> FrameMetaView {
        FrameMetaView {
            monitor_id: self.monitor_id@,
            source_width: self.source_width,
            source_height: self.source_height,
            output_width: self.output_width,
            output_height: self.output_height,
            scale_num: self.scale_num,
            scale_den: self.scale_den,
            created: self.created,
        }
    }
}

impl FrameMeta {
    /// A copy with the same content.
    pub fn duplicate(&self) -> (r: FrameMeta)
        ensures
            r@ == self@,
    {
        FrameMeta {
            monitor_id: self.monitor_id.clone(),
            source_width: self.source_width,
            source_height: self.source_height,
            output_width: self.output_width,
            output_height: self.output_height,
            scale_num: self.scale_num,
            scale_den: self.scale_den,
            created: self.created,
        }
    }
}

/// The native pixel that frame pixel `(x, y)` shows, if both lie inside
/// their images. `scaled` is the point scaled back to native size, as the
/// caller computes it in floating point (`floor(x / scale)` per axis, with
/// `scale = scale_num / scale_den` as an `f64`).
pub open spec fn native_of(m: FrameMetaView, x: u32, y: u32, scaled: (u32, u32)) -> Option<(u32, u32)> {
    if x >= m.output_width || y >= m.output_height {
        None
    } else if scaled.0 >= m.source_width || scaled.1 >= m.source_height {
        None
    } else {
        Some(scaled)
    }
}

/// Milliseconds elapsed from `since` to `now` (zero if `now` is earlier).
pub open spec fn elapsed(since: u64, now: u64) -> u64 {
    if now >= since {
        (now - since) as u64
    } else {
        0
    }
}

/// A lower-case hexadecimal digit.
pub open spec fn is_hex_lower(c: char) -> bool {
    ('0' <= c <= '9') || ('a' <= c <= 'f')
}

/// The text of a random (version 4, RFC 4122 variant) UUID: 36 characters,
/// hyphens at positions 8, 13, 18 and 23, lower-case hex digits elsewhere,
/// `4` at position 14 and one of `8`, `9`, `a`, `b` at position 19.
pub open spec fn uuid_v4_text(s: Seq<char>) -> bool {
    &&& s.len() == 36
    &&& forall|i: int|
        0 <= i < 36 ==> if i == 8 || i == 13 || i == 18 || i == 23 {
            #[trigger] s[i] == '-'
        } else {
            is_hex_lower(s[i])
        }
    &&& s[14] == '4'
    &&& (s[19] == '8' || s[19] == '9' || s[19] == 'a' || s[19] == 'b')
}

/// A fresh frame id: `uuid::Uuid::new_v4()` as text. Claims: the text has
/// the form `uuid_v4_text` describes (`new_v4` sets the version and variant
/// bits; `Display` prints the hyphenated lower-case form). Which random
/// id is drawn is left unsaid. The draw panics when the operating system
/// gives no randomness, which no `requires` can rule out.
#[verifier::external_body]
fn new_frame_id() -> (r: String)
    ensures
        uuid_v4_text(r@),
{
    uuid::Uuid::new_v4().to_string()
}

/// In-memory frame registry: bounded in size, entries expire.
/// Host-only; only geometry is ever sent to clients.
pub struct FrameStore {
    entries: Vec<(String, FrameMeta)>,
    ttl: u64,
    max: usize,
}

/// The lifetime of a frame, in milliseconds.
pub open spec fn frame_ttl() -> u64 {
    60_000
}

/// How many frames the registry holds at most.
pub open spec fn frame_max() -> nat {
    32
}

pub open spec fn keys_unique(entries: Seq<(String, FrameMeta)>) -> bool {
    forall|i: int, j: int| 0 <= i < j < entries.len() ==> entries[i].0@ != entries[j].0@
}

pub open spec fn entries_map(entries: Seq<(String, FrameMeta)>) -> Map<Seq<char>, FrameMetaView>
    decreases entries.len(),
{
    if entries.len() == 0 {
        Map::empty()
    } else {
        entries_map(entries.drop_last()).insert(entries.last().0@, entries.last().1@)
    }
}

/// The frames of a map that are still alive at `now`.
pub open spec fn live(m: Map<Seq<char>, FrameMetaView>, now: u64) -> Map<Seq<char>, FrameMetaView> {
    m.restrict(m.dom().filter(|k: Seq<char>| elapsed(m[k].created, now) < frame_ttl()))
}

/// `after` is `before` with its expired frames dropped, one live frame
/// evicted exactly when 32 live frames remain, and `meta` registered as
/// `id`.
pub open spec fn inserted(
    before: Map<Seq<char>, FrameMetaView>,
    after: Map<Seq<char>, FrameMetaView>,
    now: u64,
    id: Seq<char>,
    meta: FrameMetaView,
) -> bool {
    let alive = live(before, now);
    ||| (alive.dom().len() < frame_max() && after == alive.insert(id, meta))
    ||| (alive.dom().len() >= frame_max() && exists|k: Seq<char>|
        #![trigger alive.contains_key(k)]
        alive.contains_key(k) && after == alive.remove(k).insert(id, meta))
}

proof fn lemma_entries_map(entries: Seq<(String, FrameMeta)>)
    requires
        keys_unique(entries),
    ensures
        entries_map(entries).dom().finite(),
        entries_map(entries).dom().len() == entries.len(),
        forall|k: Seq<char>|
            #[trigger] entries_map(entries).contains_key(k) <==> exists|i: int|
                0 <= i < entries.len() && entries[i].0@ == k,
        forall|i: int|
            0 <= i < entries.len() ==> #[trigger] entries_map(entries)[entries[i].0@]
                == entries[i].1@,
    decreases entries.len(),
{
    if entries.len() > 0 {
        let init = entries.drop_last();
        lemma_entries_map(init);
        assert(!entries_map(init).contains_key(entries.last().0@)) by {
            if entries_map(init).contains_key(entries.last().0@) {
                let i = choose|i: int| 0 <= i < init.len() && init[i].0@ == entries.last().0@;
                assert(entries[i].0@ == entries[entries.len() - 1].0@);
            }
        }
        assert forall|k: Seq<char>|
            #[trigger] entries_map(entries).contains_key(k) <==> exists|i: int|
                0 <= i < entries.len() && entries[i].0@ == k by {
            if exists|i: int| 0 <= i < entries.len() && entries[i].0@ == k {
                let i = choose|i: int| 0 <= i < entries.len() && entries[i].0@ == k;
                if i < entries.len() - 1 {
                    assert(init[i].0@ == k);
                }
            }
            if entries_map(init).contains_key(k) {
                let i = choose|i: int| 0 <= i < init.len() && init[i].0@ == k;
                assert(entries[i].0@ == k);
            }
        }
        assert forall|i: int| 0 <= i < entries.len() implies #[trigger] entries_map(entries)[entries[i].0@]
            == entries[i].1@ by {
            if i < entries.len() - 1 {
                assert(init[i] == entries[i]);
                assert(entries[i].0@ != entries.last().0@);
            }
        }
    }
}

proof fn lemma_remove_entry(s: Seq<(String, FrameMeta)>, i: int)
    requires
        keys_unique(s),
        0 <= i < s.len(),
    ensures
        keys_unique(s.remove(i)),
        entries_map(s.remove(i)) == entries_map(s).remove(s[i].0@),
{
    let r = s.remove(i);
    assert forall|a: int, b: int| 0 <= a < b < r.len() implies r[a].0@ != r[b].0@ by {
        let a2 = if a < i { a } else { a + 1 };
        let b2 = if b < i { b } else { b + 1 };
        assert(r[a] == s[a2]);
        assert(r[b] == s[b2]);
    }
    lemma_entries_map(s);
    lemma_entries_map(r);
    let m1 = entries_map(r);
    let m2 = entries_map(s).remove(s[i].0@);
    assert forall|k: Seq<char>| m1.contains_key(k) <==> m2.contains_key(k) by {
        if m1.contains_key(k) {
            let a = choose|a: int| 0 <= a < r.len() && r[a].0@ == k;
            let a2 = if a < i { a } else { a + 1 };
            assert(r[a] == s[a2]);
            assert(s[a2].0@ == k);
        }
        if m2.contains_key(k) {
            let a = choose|a: int| 0 <= a < s.len() && s[a].0@ == k;
            assert(a != i);
            let a2 = if a < i { a } else { a - 1 };
            assert(r[a2] == s[a]);
        }
    }
    assert forall|k: Seq<char>| m1.contains_key(k) implies m1[k] == m2[k] by {
        let a = choose|a: int| 0 <= a < r.len() && r[a].0@ == k;
        let a2 = if a < i { a } else { a + 1 };
        assert(r[a] == s[a2]);
        assert(m1[r[a].0@] == r[a].1@);
        assert(entries_map(s)[s[a2].0@] == s[a2].1@);
    }
    assert(m1 =~= m2);
}

proof fn lemma_push_entry(s: Seq<(String, FrameMeta)>, e: (String, FrameMeta))
    requires
        keys_unique(s),
        !entries_map(s).contains_key(e.0@),
    ensures
        keys_unique(s.push(e)),
        entries_map(s.push(e)) == entries_map(s).insert(e.0@, e.1@),
{
    lemma_entries_map(s);
    let t = s.push(e);
    assert forall|a: int, b: int| 0 <= a < b < t.len() implies t[a].0@ != t[b].0@ by {
        if b == s.len() {
            assert(t[a] == s[a]);
        } else {
            assert(t[a] == s[a] && t[b] == s[b]);
        }
    }
    assert(t.drop_last() =~= s);
}

impl FrameStore {
    #[verifier::type_invariant]
    spec fn wf(self) -> bool {
        &&& keys_unique(self.entries@)
        &&& self.entries@.len() <= frame_max()
        &&& self.ttl == frame_ttl()
        &&& self.max == frame_max()
    }

    pub closed spec fn frames(self) -> Map<Seq<char>, FrameMetaView> {
        entries_map(self.entries@)
    }
}

impl View for FrameStore {
    type V = Map<Seq<char>, FrameMetaView>;

    closed spec fn view(&self) -> Map<Seq<char>, FrameMetaView> {
        self.frames()
    }
}

impl Default for FrameStore {
    /// An empty registry, as `new` makes it.
    fn default() -> (r: FrameStore)
        ensures
            r@ == Map::<Seq<char>, FrameMetaView>::empty(),
    {
        FrameStore::new()
    }
}

/// Position of the entry with key `id`, if any.
fn find_entry(es: &Vec<(String, FrameMeta)>, id: &str) -> (r: Option<usize>)
    requires
        keys_unique(es@),
    ensures
        r matches Some(i) ==> i < es@.len() && es@[i as int].0@ == id@,
        r is None ==> !entries_map(es@).contains_key(id@),
{
    proof {
        lemma_entries_map(es@);
    }
    let mut i: usize = 0;
    while i < es.len()
        invariant
            i <= es@.len(),
            forall|j: int| 0 <= j < i ==> es@[j].0@ != id@,
        decreases es@.len() - i,
    {
        if crate::text::same_text(es[i].0.as_str(), id) {
            return Some(i);
        }
        i = i + 1;
    }
    None
}

impl FrameStore {
    /// An empty registry (frames live 60 s, at most 32 are kept).
    pub fn new() -> (r: FrameStore)
        ensures
            r@ == Map::<Seq<char>, FrameMetaView>::empty(),
    {
        FrameStore { entries: Vec::new(), ttl: 60_000, max: 32 }
    }

    /// Registers a frame under a fresh id and returns the id. Expired
    /// frames are dropped first; if the registry is still full, one frame
    /// is evicted to make room.
    pub fn insert(&mut self, meta: FrameMeta, now: u64) -> (id: String)
        ensures
            inserted(old(self)@, final(self)@, now, id@, meta@),
            uuid_v4_text(id@),
            final(self)@.dom().finite(),
            final(self)@.dom().len() <= frame_max(),
    {
        proof {
            use_type_invariant(&*self);
        }
        let ghost m0 = self@;
        let ghost alive = live(m0, now);
        let mut es: Vec<(String, FrameMeta)> = Vec::new();
        std::mem::swap(&mut es, &mut self.entries);
        let ttl = self.ttl;
        let max = self.max;
        proof {
            lemma_entries_map(es@);
        }
        let mut i: usize = 0;
        while i < es.len()
            invariant
                ttl == frame_ttl(),
                keys_unique(es@),
                es@.len() <= frame_max(),
                i <= es@.len(),
                alive == live(m0, now),
                forall|k: Seq<char>|
                    #[trigger] entries_map(es@).contains_key(k) ==> m0.contains_key(k)
                        && entries_map(es@)[k] == m0[k],
                forall|k: Seq<char>|
                    #[trigger] alive.contains_key(k) ==> entries_map(es@).contains_key(k),
                forall|j: int|
                    0 <= j < i ==> elapsed(#[trigger] es@[j].1.created, now) < frame_ttl(),
            decreases es@.len() - i,
        {
            let created = es[i].1.created;
            let age = if now >= created {
                now - created
            } else {
                0
            };
            if age < ttl {
                i = i + 1;
            } else {
                let ghost s = es@;
                proof {
                    lemma_entries_map(s);
                    lemma_remove_entry(s, i as int);
                    assert(entries_map(s)[s[i as int].0@] == s[i as int].1@);
                    assert(!alive.contains_key(s[i as int].0@));
                }
                es.remove(i);
                proof {
                    assert forall|j: int| 0 <= j < i implies elapsed(
                        #[trigger] es@[j].1.created,
                        now,
                    ) < frame_ttl() by {
                        assert(es@[j] == s[j]);
                    }
                }
            }
        }
        proof {
            lemma_entries_map(es@);
            assert forall|k: Seq<char>| entries_map(es@).contains_key(k) implies alive.contains_key(
                k,
            ) by {
                let j = choose|j: int| 0 <= j < es@.len() && es@[j].0@ == k;
                assert(entries_map(es@)[es@[j].0@] == es@[j].1@);
                assert(elapsed(es@[j].1.created, now) < frame_ttl());
            }
            assert(entries_map(es@) =~= alive);
        }
        let ghost kept = entries_map(es@);
        let ghost mut evicted: Option<Seq<char>> = None;
        proof {
            lemma_entries_map(es@);
            assert(alive.dom().len() == es@.len());
        }
        if es.len() >= max {
            proof {
                lemma_remove_entry(es@, 0);
                lemma_entries_map(es@);
                evicted = Some(es@[0].0@);
            }
            es.remove(0);
        }
        let id = new_frame_id();
        proof {
            lemma_entries_map(es@);
        }
        let ghost before_id = entries_map(es@);
        match find_entry(&es, id.as_str()) {
            Some(j) => {
                proof {
                    lemma_remove_entry(es@, j as int);
                }
                es.remove(j);
            },
            None => {},
        }
        proof {
            lemma_entries_map(es@);
            lemma_push_entry(es@, (id, meta));
            assert(entries_map(es@) =~= before_id.remove(id@));
        }
        let key = id.clone();
        proof {
            lemma_push_entry(es@, (key, meta));
        }
        es.push((key, meta));
        proof {
            lemma_entries_map(es@);
            assert(entries_map(es@) =~= before_id.insert(id@, meta@));
            match evicted {
                Some(k) => {
                    assert(alive.contains_key(k));
                    assert(before_id =~= alive.remove(k));
                },
                None => {
                    assert(before_id =~= alive);
                },
            }
        }
        std::mem::swap(&mut es, &mut self.entries);
        id
    }

    /// The frame registered under `id`, if it is still alive; an expired
    /// frame is dropped when looked up.
    pub fn get(&mut self, id: &str, now: u64) -> (r: Option<FrameMeta>)
        ensures
            !old(self)@.contains_key(id@) ==> r is None && final(self)@ == old(self)@,
            old(self)@.contains_key(id@) && elapsed(old(self)@[id@].created, now) >= frame_ttl()
                ==> r is None && final(self)@ == old(self)@.remove(id@),
            old(self)@.contains_key(id@) && elapsed(old(self)@[id@].created, now) < frame_ttl()
                ==> (r matches Some(m) && m@ == old(self)@[id@] && final(self)@ == old(self)@),
    {
        proof {
            use_type_invariant(&*self);
            lemma_entries_map(self.entries@);
        }
        match find_entry(&self.entries, id) {
            None => None,
            Some(i) => {
                let created = self.entries[i].1.created;
                let age = if now >= created {
                    now - created
                } else {
                    0
                };
                proof {
                    assert(entries_map(self.entries@)[self.entries@[i as int].0@]
                        == self.entries@[i as int].1@);
                }
                if age >= self.ttl {
                    let mut es: Vec<(String, FrameMeta)> = Vec::new();
                    std::mem::swap(&mut es, &mut self.entries);
                    proof {
                        lemma_remove_entry(es@, i as int);
                    }
                    es.remove(i);
                    std::mem::swap(&mut es, &mut self.entries);
                    None
                } else {
                    Some(self.entries[i].1.duplicate())
                }
            },
        }
    }

    /// Frame space to native: the point `scaled` (frame point `(x, y)`
    /// divided by the frame's scale in floating point and floored, which
    /// the caller computes); `None` when the frame point lies outside the
    /// frame or the scaled point outside the source.
    pub fn to_native(meta: &FrameMeta, x: u32, y: u32, scaled: (u32, u32)) -> (r: Option<(u32, u32)>)
        ensures
            r == native_of(meta@, x, y, scaled),
            r matches Some((nx, ny)) ==> nx < meta.source_width && ny < meta.source_height,
    {
        if x >= meta.output_width || y >= meta.output_height {
            return None;
        }
        if scaled.0 >= meta.source_width || scaled.1 >= meta.source_height {
            return None;
        }
        Some(scaled)
    }
}

/// A frame handed out is found again, with the geometry it was registered
/// with, by every lookup before its lifetime is over.
pub proof fn law_frame_found_until_expiry(
    before: Map<Seq<char>, FrameMetaView>,
    after: Map<Seq<char>, FrameMetaView>,
    now: u64,
    id: Seq<char>,
    meta: FrameMetaView,
    later: u64,
)
    requires
        inserted(before, after, now, id, meta),
        elapsed(meta.created, later) < frame_ttl(),
    ensures
        after.contains_key(id),
        after[id] == meta,
        elapsed(after[id].created, later) < frame_ttl(),
{
}

/// Another registration leaves a held frame as it was unless it evicts it,
/// and drops every frame that has expired by then; so a frame is found by
/// `get` with the geometry it was registered with until it expires or is
/// evicted.
pub proof fn law_frame_kept_by_other_inserts(
    before: Map<Seq<char>, FrameMetaView>,
    after: Map<Seq<char>, FrameMetaView>,
    now: u64,
    new_id: Seq<char>,
    new_meta: FrameMetaView,
    id: Seq<char>,
)
    requires
        inserted(before, after, now, new_id, new_meta),
        id != new_id,
    ensures
        after.contains_key(id) ==> before.contains_key(id) && after[id] == before[id] && elapsed(
            before[id].created,
            now,
        ) < frame_ttl(),
        before.contains_key(id) && elapsed(before[id].created, now) >= frame_ttl()
            ==> !after.contains_key(id),
{
    let alive = live(before, now);
    if alive.dom().len() >= frame_max() && exists|k: Seq<char>|
        #![trigger alive.contains_key(k)]
        alive.contains_key(k) && after == alive.remove(k).insert(new_id, new_meta) {
        let k = choose|k: Seq<char>|
            #![trigger alive.contains_key(k)]
            alive.contains_key(k) && after == alive.remove(k).insert(new_id, new_meta);
        assert(after == alive.remove(k).insert(new_id, new_meta));
    }
}

} // verus!
