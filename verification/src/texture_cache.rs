//! The bookkeeping of the renderer's texture cache: which images are resident,
//! how much video memory they take, and which ones are evicted, least recently
//! used first, when a new image does not fit. The system wallpaper is never
//! evicted to make room.
//!
//! The cache decides; uploading and deleting the textures themselves is the
//! renderer's work, done for the keys that the cache hands back.
use vstd::prelude::*;

verus! {

/// The video memory that the cache may use by default: 64 MiB.
pub const DEFAULT_MAX_VRAM_BYTES: usize = 0x0400_0000usize;

/// The number of textures that the cache may hold by default.
pub const DEFAULT_MAX_TEXTURES: usize = 128usize;

/// The key of the system wallpaper.
pub open spec fn wallpaper_key() -> Seq<char> {
    "__system_wallpaper__"@
}

/// The key of the system wallpaper, as a string.
pub fn wallpaper_id() -> (s: String)
    ensures
        s@ == wallpaper_key(),
{
    "__system_wallpaper__".to_owned()
}

/// What the cache knows of one resident texture.
#[derive(Clone, Copy, Debug, PartialEq, Eq, Structural)]
pub struct TextureHandle {
    /// Width of the image in pixels.
    pub width: u32,
    /// Height of the image in pixels.
    pub height: u32,
    /// Video memory taken by the texture: four bytes a pixel.
    pub size_bytes: usize,
    /// Value of the access counter when the texture was last loaded or drawn.
    pub last_used: u64,
}

/// A resident texture: its key and its handle.
pub type Slot = (Seq<char>, TextureHandle);

/// Video memory taken by an RGBA image of the given size.
pub open spec fn rgba_size(width: u32, height: u32) -> int {
    width * height * 4
}

/// `a - b`, or zero where `b` is the larger.
pub open spec fn sat_sub(a: usize, b: usize) -> usize {
    if a >= b {
        (a - b) as usize
    } else {
        0
    }
}

/// Whether some slot of `e` holds the key `k`.
pub open spec fn holds(e: Seq<Slot>, k: Seq<char>) -> bool {
    exists|i: int| 0 <= i < e.len() && #[trigger] e[i].0 == k
}

/// The position of the key `k` in `e`, if it is there.
pub open spec fn slot_of(e: Seq<Slot>, k: Seq<char>) -> Option<int> {
    if holds(e, k) {
        Some(choose|i: int| 0 <= i < e.len() && #[trigger] e[i].0 == k)
    } else {
        None
    }
}

/// No two slots hold the same key.
pub open spec fn distinct_keys(e: Seq<Slot>) -> bool {
    forall|a: int, b: int| 0 <= a < b < e.len() ==> #[trigger] e[a].0 != #[trigger] e[b].0
}

/// No two slots were last used at the same count.
pub open spec fn distinct_uses(e: Seq<Slot>) -> bool {
    forall|a: int, b: int|
        0 <= a < b < e.len() ==> #[trigger] e[a].1.last_used != #[trigger] e[b].1.last_used
}

/// Every slot was last used at or before the count `counter`.
pub open spec fn used_by(e: Seq<Slot>, counter: u64) -> bool {
    forall|i: int| 0 <= i < e.len() ==> #[trigger] e[i].1.last_used <= counter
}

/// The slots of a consistent cache: keys and use counts are distinct and no
/// use lies ahead of the counter.
pub open spec fn consistent(e: Seq<Slot>, counter: u64) -> bool {
    distinct_keys(e) && distinct_uses(e) && used_by(e, counter)
}

/// Slot `i` holds a texture other than the wallpaper, and no other such
/// texture was used longer ago.
pub open spec fn is_lru(e: Seq<Slot>, i: int) -> bool {
    &&& 0 <= i < e.len()
    &&& e[i].0 != wallpaper_key()
    &&& forall|j: int|
        0 <= j < e.len() && #[trigger] e[j].0 != wallpaper_key() ==> e[i].1.last_used
            <= e[j].1.last_used
}

/// Whether a new texture of `new_size` bytes must wait for an eviction: the
/// memory or the count budget would be exceeded, and more than one texture is
/// resident.
pub open spec fn over_budget(
    total: usize,
    new_size: int,
    count: int,
    max_vram: usize,
    max_textures: usize,
) -> bool {
    (total + new_size > max_vram || count >= max_textures) && count > 1
}

/// The slots and the memory total left after making room for a texture of
/// `new_size` bytes, and the slots evicted, in order: while over budget, the
/// least recently used texture other than the wallpaper goes; when only the
/// wallpaper is left to evict, nothing more is.
pub open spec fn make_room(
    e: Seq<Slot>,
    total: usize,
    new_size: int,
    max_vram: usize,
    max_textures: usize,
) -> (Seq<Slot>, usize, Seq<Slot>)
    decreases e.len(),
{
    if over_budget(total, new_size, e.len() as int, max_vram, max_textures) && exists|i: int|
        is_lru(e, i) {
        let i = choose|i: int| is_lru(e, i);
        let r = make_room(
            e.remove(i),
            sat_sub(total, e[i].1.size_bytes),
            new_size,
            max_vram,
            max_textures,
        );
        (r.0, r.1, seq![e[i]] + r.2)
    } else {
        (e, total, Seq::empty())
    }
}

/// The keys of a sequence of slots.
pub open spec fn keys(e: Seq<Slot>) -> Seq<Seq<char>> {
    e.map_values(|s: Slot| s.0)
}

/// The texts of a sequence of strings.
pub open spec fn key_views(v: Seq<String>) -> Seq<Seq<char>> {
    v.map_values(|s: String| s@)
}

/// The slots and the memory total once the wallpaper, if resident, is dropped.
pub open spec fn without_wallpaper(e: Seq<Slot>, total: usize) -> (Seq<Slot>, usize) {
    match slot_of(e, wallpaper_key()) {
        Some(i) => (e.remove(i), sat_sub(total, e[i].1.size_bytes)),
        None => (e, total),
    }
}

/// The handle of a texture of the given size, first used at count `t`.
pub open spec fn new_handle(width: u32, height: u32, t: u64) -> TextureHandle {
    TextureHandle { width, height, size_bytes: rgba_size(width, height) as usize, last_used: t }
}

/// The slots after the texture under `k`, if any, is used at count `t`.
pub open spec fn touched(e: Seq<Slot>, k: Seq<char>, t: u64) -> Seq<Slot> {
    Seq::new(
        e.len(),
        |i: int|
            if e[i].0 == k {
                (e[i].0, TextureHandle { last_used: t, ..e[i].1 })
            } else {
                e[i]
            },
    )
}

/// With distinct keys, a key has one position.
proof fn lemma_slot_of(e: Seq<Slot>, k: Seq<char>, i: int)
    requires
        distinct_keys(e),
        0 <= i < e.len(),
        e[i].0 == k,
    ensures
        slot_of(e, k) == Some(i),
{
    let j = choose|j: int| 0 <= j < e.len() && #[trigger] e[j].0 == k;
    if j < i {
        assert(e[j].0 != e[i].0);
    } else if i < j {
        assert(e[i].0 != e[j].0);
    }
}

/// With distinct use counts, the least recently used texture is one.
proof fn lemma_lru_unique(e: Seq<Slot>, i: int)
    requires
        distinct_uses(e),
        is_lru(e, i),
    ensures
        (choose|j: int| is_lru(e, j)) == i,
{
    let j = choose|j: int| is_lru(e, j);
    assert(is_lru(e, j));
    assert(e[i].1.last_used <= e[j].1.last_used);
    assert(e[j].1.last_used <= e[i].1.last_used);
    if j < i {
        assert(e[j].1.last_used != e[i].1.last_used);
    } else if i < j {
        assert(e[i].1.last_used != e[j].1.last_used);
    }
}

/// Removing a slot keeps a cache consistent.
proof fn lemma_consistent_remove(e: Seq<Slot>, counter: u64, i: int)
    requires
        consistent(e, counter),
        0 <= i < e.len(),
    ensures
        consistent(e.remove(i), counter),
{
    e.remove_ensures(i);
    let r = e.remove(i);
    assert forall|a: int, b: int| 0 <= a < b < r.len() implies #[trigger] r[a].0 != #[trigger] r[b].0
        && r[a].1.last_used != r[b].1.last_used by {
        let a2 = if a < i {
            a
        } else {
            a + 1
        };
        let b2 = if b < i {
            b
        } else {
            b + 1
        };
        assert(r[a] == e[a2] && r[b] == e[b2]);
        assert(e[a2].0 != e[b2].0);
        assert(e[a2].1.last_used != e[b2].1.last_used);
    }
    assert forall|a: int| 0 <= a < r.len() implies #[trigger] r[a].1.last_used <= counter by {
        if a < i {
            assert(r[a] == e[a]);
        } else {
            assert(r[a] == e[a + 1]);
        }
    }
}

/// Where some texture other than the wallpaper is resident, one of them is
/// the least recently used.
proof fn lemma_lru_exists(e: Seq<Slot>, j: int)
    requires
        0 <= j < e.len(),
        e[j].0 != wallpaper_key(),
    ensures
        exists|i: int| is_lru(e, i),
    decreases e.len(),
{
    let n = e.len() - 1;
    let d = e.drop_last();
    if exists|k: int| 0 <= k < d.len() && #[trigger] d[k].0 != wallpaper_key() {
        let k = choose|k: int| 0 <= k < d.len() && #[trigger] d[k].0 != wallpaper_key();
        lemma_lru_exists(d, k);
        let i = choose|i: int| is_lru(d, i);
        if e[n].0 != wallpaper_key() && e[n].1.last_used < e[i].1.last_used {
            assert forall|m: int| 0 <= m < e.len() && #[trigger] e[m].0 != wallpaper_key() implies e[n].1.last_used
                <= e[m].1.last_used by {
                if m < n {
                    assert(d[m] == e[m]);
                }
            }
            assert(is_lru(e, n));
        } else {
            assert forall|m: int| 0 <= m < e.len() && #[trigger] e[m].0 != wallpaper_key() implies e[i].1.last_used
                <= e[m].1.last_used by {
                if m < n {
                    assert(d[m] == e[m]);
                }
            }
            assert(is_lru(e, i));
        }
    } else {
        assert(j == n) by {
            if j < n {
                assert(d[j] == e[j]);
            }
        }
        assert forall|m: int| 0 <= m < e.len() && #[trigger] e[m].0 != wallpaper_key() implies e[n].1.last_used
            <= e[m].1.last_used by {
            if m < n {
                assert(d[m] == e[m]);
            }
        }
        assert(is_lru(e, n));
    }
}

/// Making room keeps and evicts only textures that were resident, and never
/// evicts the wallpaper.
proof fn lemma_make_room_from(
    e: Seq<Slot>,
    total: usize,
    new_size: int,
    max_vram: usize,
    max_textures: usize,
)
    ensures
        ({
            let r = make_room(e, total, new_size, max_vram, max_textures);
            &&& forall|j: int| 0 <= j < r.0.len() ==> e.contains(#[trigger] r.0[j])
            &&& forall|a: int| 0 <= a < r.2.len() ==> e.contains(#[trigger] r.2[a])
            &&& forall|a: int| 0 <= a < r.2.len() ==> (#[trigger] r.2[a]).0 != wallpaper_key()
        }),
    decreases e.len(),
{
    let r = make_room(e, total, new_size, max_vram, max_textures);
    if over_budget(total, new_size, e.len() as int, max_vram, max_textures) && exists|i: int|
        is_lru(e, i) {
        let i = choose|i: int| is_lru(e, i);
        let d = e.remove(i);
        e.remove_ensures(i);
        let t = sat_sub(total, e[i].1.size_bytes);
        lemma_make_room_from(d, t, new_size, max_vram, max_textures);
        let r2 = make_room(d, t, new_size, max_vram, max_textures);
        assert forall|x: Slot| d.contains(x) implies e.contains(x) by {
            let k = choose|k: int| 0 <= k < d.len() && d[k] == x;
            if k < i {
                assert(e[k] == x);
            } else {
                assert(e[k + 1] == x);
            }
        }
        assert forall|j: int| 0 <= j < r.0.len() implies e.contains(#[trigger] r.0[j]) by {
            assert(d.contains(r2.0[j]));
        }
        assert forall|a: int| 0 <= a < r.2.len() implies e.contains(#[trigger] r.2[a]) && r.2[a].0
            != wallpaper_key() by {
            if a == 0 {
                assert(r.2[a] == e[i]);
            } else {
                assert(r.2[a] == r2.2[a - 1]);
                assert(d.contains(r2.2[a - 1]));
            }
        }
    }
}

/// When room is made for a new texture, either it fits both budgets, or
/// fewer than two textures are left, or only the wallpaper is left to evict.
pub proof fn make_room_fits_or_keeps_only_wallpaper(
    e: Seq<Slot>,
    total: usize,
    new_size: int,
    max_vram: usize,
    max_textures: usize,
)
    ensures
        ({
            let r = make_room(e, total, new_size, max_vram, max_textures);
            ||| !over_budget(r.1, new_size, r.0.len() as int, max_vram, max_textures)
            ||| forall|j: int| 0 <= j < r.0.len() ==> (#[trigger] r.0[j]).0 == wallpaper_key()
        }),
    decreases e.len(),
{
    if over_budget(total, new_size, e.len() as int, max_vram, max_textures) {
        if exists|i: int| is_lru(e, i) {
            let i = choose|i: int| is_lru(e, i);
            let t = sat_sub(total, e[i].1.size_bytes);
            make_room_fits_or_keeps_only_wallpaper(e.remove(i), t, new_size, max_vram, max_textures);
            let r2 = make_room(e.remove(i), t, new_size, max_vram, max_textures);
            assert(make_room(e, total, new_size, max_vram, max_textures).0 == r2.0);
            assert(make_room(e, total, new_size, max_vram, max_textures).1 == r2.1);
        } else {
            assert forall|j: int| 0 <= j < e.len() implies (#[trigger] e[j]).0 == wallpaper_key() by {
                if e[j].0 != wallpaper_key() {
                    lemma_lru_exists(e, j);
                }
            }
            assert(make_room(e, total, new_size, max_vram, max_textures).0 == e);
        }
    }
}

/// Making room never evicts the wallpaper: every evicted texture is another
/// one, and a resident wallpaper stays resident.
pub proof fn make_room_keeps_wallpaper(
    e: Seq<Slot>,
    total: usize,
    new_size: int,
    max_vram: usize,
    max_textures: usize,
)
    ensures
        ({
            let r = make_room(e, total, new_size, max_vram, max_textures);
            &&& forall|a: int| 0 <= a < r.2.len() ==> (#[trigger] r.2[a]).0 != wallpaper_key()
            &&& holds(e, wallpaper_key()) ==> holds(r.0, wallpaper_key())
        }),
    decreases e.len(),
{
    lemma_make_room_from(e, total, new_size, max_vram, max_textures);
    if over_budget(total, new_size, e.len() as int, max_vram, max_textures) && exists|i: int|
        is_lru(e, i) {
        let i = choose|i: int| is_lru(e, i);
        let d = e.remove(i);
        e.remove_ensures(i);
        make_room_keeps_wallpaper(d, sat_sub(total, e[i].1.size_bytes), new_size, max_vram, max_textures);
        if holds(e, wallpaper_key()) {
            let k = choose|k: int| 0 <= k < e.len() && #[trigger] e[k].0 == wallpaper_key();
            if k < i {
                assert(d[k].0 == wallpaper_key());
            } else {
                assert(d[k - 1].0 == wallpaper_key());
            }
        }
    }
}

/// Textures go least recently used first: in a consistent cache, each evicted
/// texture was used longer ago than every texture evicted after it and than
/// every texture other than the wallpaper that stays.
pub proof fn make_room_evicts_least_recent_first(
    e: Seq<Slot>,
    counter: u64,
    total: usize,
    new_size: int,
    max_vram: usize,
    max_textures: usize,
)
    requires
        consistent(e, counter),
    ensures
        ({
            let r = make_room(e, total, new_size, max_vram, max_textures);
            &&& forall|a: int, b: int|
                0 <= a < b < r.2.len() ==> (#[trigger] r.2[a]).1.last_used < (
                #[trigger] r.2[b]).1.last_used
            &&& forall|a: int, j: int|
                0 <= a < r.2.len() && 0 <= j < r.0.len() && (#[trigger] r.0[j]).0
                    != wallpaper_key() ==> (#[trigger] r.2[a]).1.last_used < r.0[j].1.last_used
        }),
    decreases e.len(),
{
    let r = make_room(e, total, new_size, max_vram, max_textures);
    if over_budget(total, new_size, e.len() as int, max_vram, max_textures) && exists|i: int|
        is_lru(e, i) {
        let i = choose|i: int| is_lru(e, i);
        let d = e.remove(i);
        e.remove_ensures(i);
        lemma_consistent_remove(e, counter, i);
        let t = sat_sub(total, e[i].1.size_bytes);
        make_room_evicts_least_recent_first(d, counter, t, new_size, max_vram, max_textures);
        lemma_make_room_from(d, t, new_size, max_vram, max_textures);
        let r2 = make_room(d, t, new_size, max_vram, max_textures);
        // A texture other than the wallpaper that was resident besides the
        // evicted one was used after it.
        assert forall|x: Slot| d.contains(x) && x.0 != wallpaper_key() implies e[i].1.last_used
            < x.1.last_used by {
            let k = choose|k: int| 0 <= k < d.len() && d[k] == x;
            let k2 = if k < i {
                k
            } else {
                k + 1
            };
            assert(e[k2] == x);
            assert(e[i].1.last_used <= e[k2].1.last_used);
            if k2 < i {
                assert(e[k2].1.last_used != e[i].1.last_used);
            } else {
                assert(e[i].1.last_used != e[k2].1.last_used);
            }
        }
        assert forall|a: int, b: int| 0 <= a < b < r.2.len() implies (#[trigger] r.2[a]).1.last_used
            < (#[trigger] r.2[b]).1.last_used by {
            assert(r.2[b] == r2.2[b - 1]);
            if a == 0 {
                assert(d.contains(r2.2[b - 1]));
            } else {
                assert(r.2[a] == r2.2[a - 1]);
            }
        }
        assert forall|a: int, j: int|
            0 <= a < r.2.len() && 0 <= j < r.0.len() && (#[trigger] r.0[j]).0
                != wallpaper_key() implies (#[trigger] r.2[a]).1.last_used < r.0[j].1.last_used by {
            assert(r.0[j] == r2.0[j]);
            if a == 0 {
                assert(d.contains(r2.0[j]));
            } else {
                assert(r.2[a] == r2.2[a - 1]);
            }
        }
    }
}

/// The texture cache: the resident textures, the access counter that orders
/// their uses, and the memory they take, against the two budgets.
pub struct LruTextureCache {
    textures: Vec<(String, TextureHandle)>,
    access_counter: u64,
    total_vram_bytes: usize,
    max_vram_bytes: usize,
    max_textures: usize,
}

/// The slots of a vector of keyed handles.
pub open spec fn slots(v: Seq<(String, TextureHandle)>) -> Seq<Slot> {
    v.map_values(|p: (String, TextureHandle)| (p.0@, p.1))
}

/// Position of the least recently used texture other than the wallpaper, if
/// there is one.
fn lru_position(v: &Vec<(String, TextureHandle)>) -> (r: Option<usize>)
    ensures
        match r {
            Some(i) => is_lru(slots(v@), i as int),
            None => !exists|i: int| is_lru(slots(v@), i),
        },
{
    let ghost e = slots(v@);
    let wall = wallpaper_id();
    let mut best: Option<usize> = None;
    let mut j: usize = 0;
    while j < v.len()
        invariant
            e == slots(v@),
            wall@ == wallpaper_key(),
            j <= v.len(),
            match best {
                Some(b) => b < j && e[b as int].0 != wallpaper_key() && forall|k: int|
                    0 <= k < j && #[trigger] e[k].0 != wallpaper_key() ==> e[b as int].1.last_used
                        <= e[k].1.last_used,
                None => forall|k: int| 0 <= k < j ==> #[trigger] e[k].0 == wallpaper_key(),
            },
        decreases v.len() - j,
    {
        assert(e[j as int] == (v@[j as int].0@, v@[j as int].1));
        if v[j].0 != wall {
            match best {
                Some(b) => {
                    assert(e[b as int] == (v@[b as int].0@, v@[b as int].1));
                    if v[j].1.last_used < v[b].1.last_used {
                        best = Some(j);
                    }
                },
                None => {
                    best = Some(j);
                },
            }
        }
        j += 1;
    }
    match best {
        Some(b) => {},
        None => {
            assert forall|i: int| !is_lru(e, i) by {
                if 0 <= i < e.len() {
                    assert(e[i].0 == wallpaper_key());
                }
            }
        },
    }
    best
}

/// Evicts, least recently used first and never the wallpaper, until a
/// texture of `new_size` bytes fits the budgets or only one texture is left;
/// gives the memory total left and the evicted keys.
fn evict_for(
    v: &mut Vec<(String, TextureHandle)>,
    total: usize,
    new_size: usize,
    max_vram: usize,
    max_textures: usize,
    Ghost(counter): Ghost<u64>,
) -> (r: (usize, Vec<String>))
    requires
        consistent(slots(old(v)@), counter),
        total + new_size <= usize::MAX,
    ensures
        consistent(slots(final(v)@), counter),
        forall|j: int|
            0 <= j < final(v)@.len() ==> holds(slots(old(v)@), #[trigger] slots(final(v)@)[j].0),
        slots(final(v)@) == make_room(slots(old(v)@), total, new_size as int, max_vram, max_textures).0,
        r.0 == make_room(slots(old(v)@), total, new_size as int, max_vram, max_textures).1,
        r.0 <= total,
        key_views(r.1@) == keys(
            make_room(slots(old(v)@), total, new_size as int, max_vram, max_textures).2,
        ),
{
    let ghost e0 = slots(v@);
    let ghost ns = new_size as int;
    let mut t = total;
    let mut evicted: Vec<String> = Vec::new();
    let ghost mut gone: Seq<Slot> = Seq::empty();
    while (t + new_size > max_vram || v.len() >= max_textures) && v.len() > 1
        invariant
            consistent(slots(v@), counter),
            forall|j: int| 0 <= j < v@.len() ==> holds(e0, #[trigger] slots(v@)[j].0),
            t <= total,
            total + new_size <= usize::MAX,
            ns == new_size,
            key_views(evicted@) == keys(gone),
            make_room(e0, total, ns, max_vram, max_textures) == (
                make_room(slots(v@), t, ns, max_vram, max_textures).0,
                make_room(slots(v@), t, ns, max_vram, max_textures).1,
                gone + make_room(slots(v@), t, ns, max_vram, max_textures).2,
            ),
        ensures
            consistent(slots(v@), counter),
            forall|j: int| 0 <= j < v@.len() ==> holds(e0, #[trigger] slots(v@)[j].0),
            t <= total,
            key_views(evicted@) == keys(gone),
            make_room(e0, total, ns, max_vram, max_textures) == (slots(v@), t, gone),
        decreases v.len(),
    {
        let ghost e = slots(v@);
        match lru_position(v) {
            Some(i) => {
                proof {
                    lemma_lru_unique(e, i as int);
                    lemma_consistent_remove(e, counter, i as int);
                    e.remove_ensures(i as int);
                }
                let ghost gone_slot = e[i as int];
                let (k, h) = v.remove(i);
                proof {
                    assert(slots(v@) =~= e.remove(i as int));
                    assert(gone_slot == (k@, h));
                }
                t = t.saturating_sub(h.size_bytes);
                let ghost ev0 = evicted@;
                evicted.push(k);
                proof {
                    assert(key_views(evicted@) =~= key_views(ev0).push(gone_slot.0));
                    assert(keys(gone.push(gone_slot)) =~= keys(gone).push(gone_slot.0));
                    assert(gone + (seq![gone_slot] + make_room(slots(v@), t, ns, max_vram, max_textures).2)
                        =~= gone.push(gone_slot) + make_room(slots(v@), t, ns, max_vram, max_textures).2);
                    gone = gone.push(gone_slot);
                    assert forall|j: int| 0 <= j < v@.len() implies holds(e0, #[trigger] slots(v@)[j].0) by {
                        if j < i {
                            assert(slots(v@)[j] == e[j]);
                        } else {
                            assert(slots(v@)[j] == e[j + 1]);
                        }
                    }
                }
            },
            None => {
                proof {
                    assert(gone + Seq::<Slot>::empty() =~= gone);
                }
                break ;
            },
        }
    }
    proof {
        assert(gone + Seq::<Slot>::empty() =~= gone);
    }
    (t, evicted)
}

impl LruTextureCache {
    /// The resident textures.
    pub closed spec fn entries(self) -> Seq<Slot> {
        slots(self.textures@)
    }

    /// The access counter.
    pub closed spec fn counter(self) -> u64 {
        self.access_counter
    }

    /// The video memory that the resident textures are counted as taking.
    pub closed spec fn total(self) -> usize {
        self.total_vram_bytes
    }

    /// The memory budget.
    pub closed spec fn max_vram(self) -> usize {
        self.max_vram_bytes
    }

    /// The count budget.
    pub closed spec fn max_count(self) -> usize {
        self.max_textures
    }

    #[verifier::type_invariant]
    spec fn inv(self) -> bool {
        consistent(self.entries(), self.access_counter)
    }

    /// An empty cache with the given budgets.
    pub fn with_budget(max_vram_bytes: usize, max_textures: usize) -> (c: Self)
        ensures
            c.entries() == Seq::<Slot>::empty(),
            c.counter() == 0,
            c.total() == 0,
            c.max_vram() == max_vram_bytes,
            c.max_count() == max_textures,
            consistent(c.entries(), c.counter()),
    {
        let c = LruTextureCache {
            textures: Vec::new(),
            access_counter: 0,
            total_vram_bytes: 0,
            max_vram_bytes,
            max_textures,
        };
        assert(c.entries() =~= Seq::<Slot>::empty());
        c
    }

    /// The access counter.
    pub fn access_counter(&self) -> (n: u64)
        ensures
            n == self.counter(),
    {
        self.access_counter
    }

    /// The video memory that the resident textures are counted as taking.
    pub fn total_vram_bytes(&self) -> (n: usize)
        ensures
            n == self.total(),
    {
        self.total_vram_bytes
    }

    /// The memory budget.
    pub fn max_vram_bytes(&self) -> (n: usize)
        ensures
            n == self.max_vram(),
    {
        self.max_vram_bytes
    }

    /// The count budget.
    pub fn max_textures(&self) -> (n: usize)
        ensures
            n == self.max_count(),
    {
        self.max_textures
    }

    /// The number of resident textures.
    pub fn len(&self) -> (n: usize)
        ensures
            n == self.entries().len(),
    {
        self.textures.len()
    }

    /// Position of the texture under `key`, if it is resident.
    fn find(&self, key: &String) -> (r: Option<usize>)
        ensures
            match r {
                Some(i) => i < self.entries().len() && self.entries()[i as int].0 == key@
                    && slot_of(self.entries(), key@) == Some(i as int),
                None => !holds(self.entries(), key@) && slot_of(self.entries(), key@) == None::<int>,
            },
    {
        proof {
            use_type_invariant(self);
        }
        let ghost e = self.entries();
        let mut i: usize = 0;
        while i < self.textures.len()
            invariant
                e == slots(self.textures@),
                distinct_keys(e),
                i <= self.textures.len(),
                forall|j: int| 0 <= j < i ==> #[trigger] e[j].0 != key@,
            decreases self.textures.len() - i,
        {
            if self.textures[i].0 == *key {
                proof {
                    assert(e[i as int].0 == key@);
                    lemma_slot_of(e, key@, i as int);
                }
                return Some(i);
            }
            i += 1;
        }
        assert(!holds(e, key@));
        None
    }

    /// Makes room for and records a texture under a key that is not resident.
    fn insert_new(&mut self, key: String, width: u32, height: u32) -> (evicted: Vec<String>)
        requires
            !holds(old(self).entries(), key@),
            old(self).counter() < u64::MAX,
            rgba_size(width, height) <= usize::MAX,
            old(self).total() + rgba_size(width, height) <= usize::MAX,
        ensures
            ({
                let r = make_room(
                    old(self).entries(),
                    old(self).total(),
                    rgba_size(width, height),
                    old(self).max_vram(),
                    old(self).max_count(),
                );
                &&& final(self).entries() == r.0.push(
                    (key@, new_handle(width, height, (old(self).counter() + 1) as u64)),
                )
                &&& final(self).total() == r.1 + rgba_size(width, height)
                &&& key_views(evicted@) == keys(r.2)
            }),
            final(self).counter() == old(self).counter() + 1,
            final(self).max_vram() == old(self).max_vram(),
            final(self).max_count() == old(self).max_count(),
    {
        proof {
            use_type_invariant(&*self);
        }
        let ghost e0 = self.entries();
        let ghost c0 = self.access_counter;
        assert((width as usize) * (height as usize) <= rgba_size(width, height)) by (nonlinear_arith);
        let new_size = (width as usize) * (height as usize) * 4;
        let mut v: Vec<(String, TextureHandle)> = Vec::new();
        std::mem::swap(&mut v, &mut self.textures);
        assert(slots(v@) == e0);
        let (t, evicted) = evict_for(
            &mut v,
            self.total_vram_bytes,
            new_size,
            self.max_vram_bytes,
            self.max_textures,
            Ghost(c0),
        );
        self.access_counter = self.access_counter + 1;
        let handle = TextureHandle {
            width,
            height,
            size_bytes: new_size,
            last_used: self.access_counter,
        };
        let ghost kept = slots(v@);
        let ghost kv = key@;
        v.push((key, handle));
        proof {
            let e = slots(v@);
            assert(e =~= kept.push((kv, handle)));
            assert forall|j: int| 0 <= j < kept.len() implies #[trigger] kept[j].0 != kv by {
                assert(holds(e0, kept[j].0));
            }
            assert forall|a: int, b: int| 0 <= a < b < e.len() implies #[trigger] e[a].0
                != #[trigger] e[b].0 && e[a].1.last_used != e[b].1.last_used by {
                if b == kept.len() {
                    assert(e[a] == kept[a]);
                    assert(kept[a].1.last_used <= c0);
                } else {
                    assert(e[a] == kept[a] && e[b] == kept[b]);
                }
            }
            assert forall|a: int| 0 <= a < e.len() implies #[trigger] e[a].1.last_used
                <= self.access_counter by {
                if a < kept.len() {
                    assert(e[a] == kept[a]);
                    assert(kept[a].1.last_used <= c0);
                }
            }
        }
        self.textures = v;
        self.total_vram_bytes = t + new_size;
        evicted
    }

    /// Loads the image under `id`: a resident texture is only marked as used
    /// now and nothing is evicted; otherwise room is made for the new texture
    /// of `width` by `height` RGBA pixels, least recently used first and
    /// never the wallpaper, and it is recorded as used now. Gives the keys of
    /// the evicted textures, in the order they went.
    pub fn load_image(&mut self, id: &str, width: u32, height: u32) -> (evicted: Vec<String>)
        requires
            old(self).counter() < u64::MAX,
            !holds(old(self).entries(), id@) ==> rgba_size(width, height) <= usize::MAX
                && old(self).total() + rgba_size(width, height) <= usize::MAX,
        ensures
            holds(old(self).entries(), id@) ==> {
                &&& final(self).entries() == touched(
                    old(self).entries(),
                    id@,
                    (old(self).counter() + 1) as u64,
                )
                &&& final(self).total() == old(self).total()
                &&& evicted@.len() == 0
            },
            !holds(old(self).entries(), id@) ==> {
                let r = make_room(
                    old(self).entries(),
                    old(self).total(),
                    rgba_size(width, height),
                    old(self).max_vram(),
                    old(self).max_count(),
                );
                &&& final(self).entries() == r.0.push(
                    (id@, new_handle(width, height, (old(self).counter() + 1) as u64)),
                )
                &&& final(self).total() == r.1 + rgba_size(width, height)
                &&& key_views(evicted@) == keys(r.2)
            },
            final(self).counter() == old(self).counter() + 1,
            final(self).max_vram() == old(self).max_vram(),
            final(self).max_count() == old(self).max_count(),
            consistent(final(self).entries(), final(self).counter()),
    {
        proof {
            use_type_invariant(&*self);
        }
        let key = id.to_owned();
        let evicted = match self.find(&key) {
            Some(i) => {
                self.touch_at(i, &key);
                Vec::new()
            },
            None => self.insert_new(key, width, height),
        };
        proof {
            use_type_invariant(&*self);
        }
        evicted
    }

    /// Marks the texture at position `i`, which holds `key`, as used now.
    fn touch_at(&mut self, i: usize, key: &String)
        requires
            i < old(self).entries().len(),
            old(self).entries()[i as int].0 == key@,
            old(self).counter() < u64::MAX,
        ensures
            final(self).entries() == touched(
                old(self).entries(),
                key@,
                (old(self).counter() + 1) as u64,
            ),
            final(self).counter() == old(self).counter() + 1,
            final(self).total() == old(self).total(),
            final(self).max_vram() == old(self).max_vram(),
            final(self).max_count() == old(self).max_count(),
    {
        proof {
            use_type_invariant(&*self);
        }
        let ghost e0 = self.entries();
        let ghost c0 = self.access_counter;
        let mut v: Vec<(String, TextureHandle)> = Vec::new();
        std::mem::swap(&mut v, &mut self.textures);
        self.access_counter = self.access_counter + 1;
        let k = v[i].0.clone();
        let h = TextureHandle { last_used: self.access_counter, ..v[i].1 };
        v.set(i, (k, h));
        proof {
            let e = slots(v@);
            assert(e =~= touched(e0, key@, self.access_counter)) by {
                assert forall|j: int| 0 <= j < e0.len() && j != i implies #[trigger] e0[j].0
                    != key@ by {
                    if j < i {
                        assert(e0[j].0 != e0[i as int].0);
                    } else {
                        assert(e0[i as int].0 != e0[j].0);
                    }
                }
            }
            assert forall|a: int, b: int| 0 <= a < b < e.len() implies #[trigger] e[a].0
                != #[trigger] e[b].0 && e[a].1.last_used != e[b].1.last_used by {
                assert(e0[a].0 != e0[b].0 && e0[a].1.last_used != e0[b].1.last_used);
                assert(e0[a].1.last_used <= c0 && e0[b].1.last_used <= c0);
            }
            assert forall|a: int| 0 <= a < e.len() implies #[trigger] e[a].1.last_used
                <= self.access_counter by {
                assert(e0[a].1.last_used <= c0);
            }
        }
        self.textures = v;
    }

    /// Records that the image under `id` is drawn now: the access counter
    /// moves on whether or not it is resident, and a resident texture is
    /// marked as used. Gives its handle, if it is resident.
    pub fn mark_drawn(&mut self, id: &str) -> (r: Option<TextureHandle>)
        requires
            old(self).counter() < u64::MAX,
        ensures
            final(self).entries() == touched(
                old(self).entries(),
                id@,
                (old(self).counter() + 1) as u64,
            ),
            final(self).counter() == old(self).counter() + 1,
            final(self).total() == old(self).total(),
            final(self).max_vram() == old(self).max_vram(),
            final(self).max_count() == old(self).max_count(),
            r == match slot_of(old(self).entries(), id@) {
                Some(i) => Some(final(self).entries()[i].1),
                None => None::<TextureHandle>,
            },
            consistent(final(self).entries(), final(self).counter()),
    {
        proof {
            use_type_invariant(&*self);
        }
        let key = id.to_owned();
        match self.find(&key) {
            Some(i) => {
                self.touch_at(i, &key);
                assert(self.entries() == slots(self.textures@));
                assert(i < self.textures@.len());
                assert(self.entries()[i as int] == (self.textures@[i as int].0@, self.textures@[i as int].1));
                proof {
                    use_type_invariant(&*self);
                }
                Some(self.textures[i].1)
            },
            None => {
                proof {
                    assert(touched(self.entries(), id@, (self.access_counter + 1) as u64) =~= self.entries());
                }
                self.access_counter = self.access_counter + 1;
                proof {
                    use_type_invariant(&*self);
                }
                None
            },
        }
    }

    /// Replaces the system wallpaper: the resident wallpaper, if any, is
    /// dropped and its memory given back, then the new one is loaded as a
    /// new texture. Gives the keys evicted to make room for it.
    pub fn load_wallpaper(&mut self, width: u32, height: u32) -> (evicted: Vec<String>)
        requires
            old(self).counter() < u64::MAX,
            rgba_size(width, height) <= usize::MAX,
            without_wallpaper(old(self).entries(), old(self).total()).1 + rgba_size(width, height)
                <= usize::MAX,
        ensures
            ({
                let w = without_wallpaper(old(self).entries(), old(self).total());
                let r = make_room(
                    w.0,
                    w.1,
                    rgba_size(width, height),
                    old(self).max_vram(),
                    old(self).max_count(),
                );
                &&& final(self).entries() == r.0.push(
                    (wallpaper_key(), new_handle(width, height, (old(self).counter() + 1) as u64)),
                )
                &&& final(self).total() == r.1 + rgba_size(width, height)
                &&& key_views(evicted@) == keys(r.2)
            }),
            final(self).counter() == old(self).counter() + 1,
            final(self).max_vram() == old(self).max_vram(),
            final(self).max_count() == old(self).max_count(),
            consistent(final(self).entries(), final(self).counter()),
    {
        proof {
            use_type_invariant(&*self);
        }
        let ghost e0 = self.entries();
        let key = wallpaper_id();
        match self.find(&key) {
            Some(i) => {
                let mut v: Vec<(String, TextureHandle)> = Vec::new();
                std::mem::swap(&mut v, &mut self.textures);
                proof {
                    lemma_consistent_remove(e0, self.access_counter, i as int);
                    e0.remove_ensures(i as int);
                }
                let (_, h) = v.remove(i);
                proof {
                    assert(slots(v@) =~= e0.remove(i as int));
                    assert forall|j: int| 0 <= j < slots(v@).len() implies #[trigger] slots(v@)[j].0
                        != key@ by {
                        if j < i {
                            assert(e0[j].0 != e0[i as int].0);
                        } else {
                            assert(e0[i as int].0 != e0[j + 1].0);
                        }
                    }
                }
                self.textures = v;
                self.total_vram_bytes = self.total_vram_bytes.saturating_sub(h.size_bytes);
            },
            None => {},
        }
        let evicted = self.insert_new(key, width, height);
        proof {
            use_type_invariant(&*self);
        }
        evicted
    }

    /// Frees the memory of every texture but the wallpaper, as when the
    /// system runs low on memory: only the wallpaper stays resident and the
    /// memory total is counted from zero again. Gives the keys of the
    /// textures let go, in order.
    pub fn release_all_but_wallpaper(&mut self) -> (released: Vec<String>)
        ensures
            final(self).entries() == match slot_of(old(self).entries(), wallpaper_key()) {
                Some(i) => seq![old(self).entries()[i]],
                None => Seq::<Slot>::empty(),
            },
            key_views(released@) == match slot_of(old(self).entries(), wallpaper_key()) {
                Some(i) => keys(old(self).entries().remove(i)),
                None => keys(old(self).entries()),
            },
            final(self).total() == 0,
            final(self).counter() == old(self).counter(),
            consistent(final(self).entries(), final(self).counter()),
            final(self).max_vram() == old(self).max_vram(),
            final(self).max_count() == old(self).max_count(),
    {
        proof {
            use_type_invariant(&*self);
        }
        let ghost e0 = self.entries();
        let key = wallpaper_id();
        let found = self.find(&key);
        let mut v: Vec<(String, TextureHandle)> = Vec::new();
        std::mem::swap(&mut v, &mut self.textures);
        let mut kept: Vec<(String, TextureHandle)> = Vec::new();
        match found {
            Some(i) => {
                let slot = v.remove(i);
                proof {
                    assert(slots(v@) =~= e0.remove(i as int));
                }
                kept.push(slot);
                proof {
                    assert(slots(kept@) =~= seq![e0[i as int]]);
                }
            },
            None => {
                proof {
                    assert(slots(kept@) =~= Seq::<Slot>::empty());
                }
            },
        }
        let ghost rest = slots(v@);
        let mut released: Vec<String> = Vec::new();
        let mut j: usize = 0;
        while j < v.len()
            invariant
                rest == slots(v@),
                j <= v.len(),
                key_views(released@) == keys(rest).take(j as int),
            decreases v.len() - j,
        {
            let ghost before = released@;
            released.push(v[j].0.clone());
            proof {
                assert(key_views(released@) =~= key_views(before).push(rest[j as int].0));
                assert(keys(rest).take(j + 1) =~= keys(rest).take(j as int).push(rest[j as int].0));
            }
            j += 1;
        }
        proof {
            assert(keys(rest).take(j as int) =~= keys(rest));
            let e = slots(kept@);
            assert(consistent(e, self.access_counter)) by {
                if found.is_some() {
                    assert(e0[found.unwrap() as int].1.last_used <= self.access_counter);
                }
            }
        }
        self.textures = kept;
        self.total_vram_bytes = 0;
        proof {
            use_type_invariant(&*self);
        }
        released
    }

    /// Whether the texture under `id` is resident.
    pub fn has_image(&self, id: &str) -> (r: bool)
        ensures
            r == holds(self.entries(), id@),
    {
        let key = id.to_owned();
        let found = self.find(&key);
        proof {
            if found.is_some() {
                let i = found.unwrap() as int;
                assert(self.entries()[i].0 == id@);
            }
        }
        found.is_some()
    }

    /// The handle of the texture under `id`, if it is resident.
    pub fn get(&self, id: &str) -> (r: Option<TextureHandle>)
        ensures
            r == match slot_of(self.entries(), id@) {
                Some(i) => Some(self.entries()[i].1),
                None => None::<TextureHandle>,
            },
    {
        let key = id.to_owned();
        match self.find(&key) {
            Some(i) => {
                assert(self.entries()[i as int] == (self.textures@[i as int].0@, self.textures@[i as int].1));
                proof {
                    use_type_invariant(&*self);
                }
                Some(self.textures[i].1)
            },
            None => None,
        }
    }
}

impl Default for LruTextureCache {
    /// An empty cache with the default budgets.
    fn default() -> (c: Self)
        ensures
            c.entries() == Seq::<Slot>::empty(),
            c.counter() == 0,
            c.total() == 0,
            c.max_vram() == DEFAULT_MAX_VRAM_BYTES,
            c.max_count() == DEFAULT_MAX_TEXTURES,
            consistent(c.entries(), c.counter()),
    {
        Self::with_budget(DEFAULT_MAX_VRAM_BYTES, DEFAULT_MAX_TEXTURES)
    }
}

} // verus!
