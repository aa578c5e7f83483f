use vstd::prelude::*;

verus! {

/// Unique identifier of a UI widget: the FNV-1a hash of its name.
pub type WidgetId = u64;

/// FNV-1a 64-bit offset basis.
pub const FNV_OFFSET_BASIS: u64 = 0xcbf2_9ce4_8422_2325u64;

/// FNV-1a 64-bit prime.
pub const FNV_PRIME: u64 = 0x0000_0100_0000_01B3u64;

/// One FNV-1a round: xor the byte in, then multiply by the prime modulo 2^64.
pub open spec fn fnv1a_step(hash: u64, byte: u8) -> u64 {
    (hash ^ (byte as u64)).wrapping_mul(FNV_PRIME)
}

/// The FNV-1a hash of a byte sequence, folding from the first byte to the last.
pub open spec fn fnv1a_spec(s: Seq<u8>) -> u64
    decreases s.len(),
{
    if s.len() == 0 {
        FNV_OFFSET_BASIS
    } else {
        fnv1a_step(fnv1a_spec(s.drop_last()), s.last())
    }
}

/// Compute a `WidgetId` from a byte string with the FNV-1a hash.
pub fn fnv1a(s: &[u8]) -> (hash: u64)
    ensures
        hash == fnv1a_spec(s@),
{
    let mut hash: u64 = FNV_OFFSET_BASIS;
    let mut i: usize = 0;
    while i < s.len()
        invariant
            i <= s.len(),
            hash == fnv1a_spec(s@.subrange(0, i as int)),
        decreases s.len() - i,
    {
        proof {
            assert(s@.subrange(0, i as int + 1).drop_last() =~= s@.subrange(0, i as int));
        }
        hash = (hash ^ (s[i] as u64)).wrapping_mul(FNV_PRIME);
        i += 1;
    }
    proof {
        assert(s@.subrange(0, s@.len() as int) =~= s@);
    }
    hash
}

/// Hashing is a left fold: the hash of `a + b` continues from the hash of `a`.
pub proof fn lemma_fnv1a_append_byte(s: Seq<u8>, b: u8)
    ensures
        fnv1a_spec(s.push(b)) == fnv1a_step(fnv1a_spec(s), b),
{
    assert(s.push(b).drop_last() =~= s);
}

/// The hash of `s` is the fold of `fnv1a_step` over its bytes: each prefix
/// hashes one byte further than the prefix before it, the empty prefix hashes
/// to the offset basis, and the whole of `s` is its longest prefix.
pub proof fn lemma_fnv1a_unfolds(s: Seq<u8>)
    ensures
        fnv1a_spec(s.take(0)) == FNV_OFFSET_BASIS,
        fnv1a_spec(s) == fnv1a_spec(s.take(s.len() as int)),
        forall|k: int|
            0 < k <= s.len() ==> #[trigger] fnv1a_spec(s.take(k)) == fnv1a_step(
                fnv1a_spec(s.take(k - 1)),
                s[k - 1],
            ),
{
    assert(s.take(s.len() as int) =~= s);
    assert forall|k: int| 0 < k <= s.len() implies #[trigger] fnv1a_spec(s.take(k)) == fnv1a_step(
        fnv1a_spec(s.take(k - 1)),
        s[k - 1],
    ) by {
        assert(s.take(k).drop_last() =~= s.take(k - 1));
    }
}

/// The id of the root widget: `fnv1a(b"root")`.
pub const ROOT: WidgetId = 0xa354_fd1f_f0c4_67c5u64;
/// The id of the header: `fnv1a(b"header")`.
pub const HEADER: WidgetId = 0x3a50_6cb5_0176_1960u64;
/// The id of the button list: `fnv1a(b"btn-list")`.
pub const BTN_LIST: WidgetId = 0x55e9_fde6_9534_ba3au64;
/// The id of the settings button: `fnv1a(b"btn-settings")`.
pub const BTN_SETTINGS: WidgetId = 0xc666_8786_8874_299bu64;
/// The id of the contacts button: `fnv1a(b"btn-contacts")`.
pub const BTN_CONTACTS: WidgetId = 0xddfd_b0d7_ab14_0fd7u64;
/// The id of the camera button: `fnv1a(b"btn-camera")`.
pub const BTN_CAMERA: WidgetId = 0x8e7a_235e_0d18_851du64;

/// The declared widget ids are the hashes of their names, and no two are equal.
pub proof fn declared_ids_are_distinct()
    ensures
        ROOT == fnv1a_spec(seq![114u8, 111, 111, 116]),
        HEADER == fnv1a_spec(seq![104u8, 101, 97, 100, 101, 114]),
        BTN_LIST == fnv1a_spec(seq![98u8, 116, 110, 45, 108, 105, 115, 116]),
        BTN_SETTINGS == fnv1a_spec(seq![98u8, 116, 110, 45, 115, 101, 116, 116, 105, 110, 103, 115]),
        BTN_CONTACTS == fnv1a_spec(seq![98u8, 116, 110, 45, 99, 111, 110, 116, 97, 99, 116, 115]),
        BTN_CAMERA == fnv1a_spec(seq![98u8, 116, 110, 45, 99, 97, 109, 101, 114, 97]),
        ROOT != HEADER && ROOT != BTN_LIST && ROOT != BTN_SETTINGS && ROOT != BTN_CONTACTS
            && ROOT != BTN_CAMERA,
        HEADER != BTN_LIST && HEADER != BTN_SETTINGS && HEADER != BTN_CONTACTS && HEADER
            != BTN_CAMERA,
        BTN_LIST != BTN_SETTINGS && BTN_LIST != BTN_CONTACTS && BTN_LIST != BTN_CAMERA,
        BTN_SETTINGS != BTN_CONTACTS && BTN_SETTINGS != BTN_CAMERA,
        BTN_CONTACTS != BTN_CAMERA,
{
    let root = seq![114u8, 111, 111, 116];
    let header = seq![104u8, 101, 97, 100, 101, 114];
    let list = seq![98u8, 116, 110, 45, 108, 105, 115, 116];
    let settings = seq![98u8, 116, 110, 45, 115, 101, 116, 116, 105, 110, 103, 115];
    let contacts = seq![98u8, 116, 110, 45, 99, 111, 110, 116, 97, 99, 116, 115];
    let camera = seq![98u8, 116, 110, 45, 99, 97, 109, 101, 114, 97];
    assert(ROOT == fnv1a_spec(root)) by {
        lemma_fnv1a_unfolds(root);
        assert(fnv1a_step(fnv1a_step(fnv1a_step(fnv1a_step(FNV_OFFSET_BASIS, 114), 111), 111), 116) == ROOT) by (bit_vector);
    }
    assert(HEADER == fnv1a_spec(header)) by {
        lemma_fnv1a_unfolds(header);
        assert(fnv1a_step(fnv1a_step(fnv1a_step(fnv1a_step(fnv1a_step(fnv1a_step(FNV_OFFSET_BASIS, 104), 101), 97), 100), 101), 114) == HEADER) by (bit_vector);
    }
    assert(BTN_LIST == fnv1a_spec(list)) by {
        lemma_fnv1a_unfolds(list);
        assert(fnv1a_step(fnv1a_step(fnv1a_step(fnv1a_step(fnv1a_step(fnv1a_step(fnv1a_step(fnv1a_step(FNV_OFFSET_BASIS, 98), 116), 110), 45), 108), 105), 115), 116) == BTN_LIST) by (bit_vector);
    }
    assert(BTN_SETTINGS == fnv1a_spec(settings)) by {
        lemma_fnv1a_unfolds(settings);
        assert(fnv1a_step(fnv1a_step(fnv1a_step(fnv1a_step(fnv1a_step(fnv1a_step(fnv1a_step(fnv1a_step(fnv1a_step(fnv1a_step(fnv1a_step(fnv1a_step(FNV_OFFSET_BASIS, 98), 116), 110), 45), 115), 101), 116), 116), 105), 110), 103), 115) == BTN_SETTINGS) by (bit_vector);
    }
    assert(BTN_CONTACTS == fnv1a_spec(contacts)) by {
        lemma_fnv1a_unfolds(contacts);
        assert(fnv1a_step(fnv1a_step(fnv1a_step(fnv1a_step(fnv1a_step(fnv1a_step(fnv1a_step(fnv1a_step(fnv1a_step(fnv1a_step(fnv1a_step(fnv1a_step(FNV_OFFSET_BASIS, 98), 116), 110), 45), 99), 111), 110), 116), 97), 99), 116), 115) == BTN_CONTACTS) by (bit_vector);
    }
    assert(BTN_CAMERA == fnv1a_spec(camera)) by {
        lemma_fnv1a_unfolds(camera);
        assert(fnv1a_step(fnv1a_step(fnv1a_step(fnv1a_step(fnv1a_step(fnv1a_step(fnv1a_step(fnv1a_step(fnv1a_step(fnv1a_step(FNV_OFFSET_BASIS, 98), 116), 110), 45), 99), 97), 109), 101), 114), 97) == BTN_CAMERA) by (bit_vector);
    }
}

/// A node of the widget tree, generic in its style `S`.
#[allow(inconsistent_fields)]
#[verifier::reject_recursive_types(S)]
pub enum Widget<S> {
    /// Layout container: holds child widgets.
    Container { id: Option<WidgetId>, style: S, children: Vec<Widget<S>> },
    /// Tappable action button.
    Button { id: WidgetId, label: String, style: S, hovered: bool },
    /// Text display element.
    Label { id: Option<WidgetId>, text: String, style: S, visible: bool },
    /// Stand-alone icon element.
    Icon { id: Option<WidgetId>, widget_id: WidgetId, style: S },
}

impl<S> Widget<S> {
    /// The style of the widget, whatever its kind.
    pub fn style(&self) -> (s: &S)
        ensures
            *s == match *self {
                Widget::Container { style, .. } => style,
                Widget::Button { style, .. } => style,
                Widget::Label { style, .. } => style,
                Widget::Icon { style, .. } => style,
            },
    {
        match self {
            Widget::Container { style, .. } => style,
            Widget::Button { style, .. } => style,
            Widget::Label { style, .. } => style,
            Widget::Icon { style, .. } => style,
        }
    }

    /// The widget's id: always present on buttons, optional on the others
    /// (`None` for anonymous widgets).
    pub fn widget_id(&self) -> (r: Option<WidgetId>)
        ensures
            r == match *self {
                Widget::Button { id, .. } => Some(id),
                Widget::Container { id, .. } => id,
                Widget::Label { id, .. } => id,
                Widget::Icon { id, .. } => id,
            },
    {
        match self {
            Widget::Button { id, .. } => Some(*id),
            Widget::Container { id, .. } => *id,
            Widget::Label { id, .. } => *id,
            Widget::Icon { id, .. } => *id,
        }
    }
}

} // verus!
