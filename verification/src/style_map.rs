//! Runtime style overrides keyed by widget id.
use vstd::prelude::*;
use std::collections::HashMap;

use crate::widget::WidgetId;

verus! {

broadcast use vstd::std_specs::hash::group_hash_axioms;

/// The colour properties of a style, the part that overrides act on.
#[derive(Clone, Copy, PartialEq, Eq, Structural)]
pub struct StyleColors {
    pub background_color: Option<u32>,
    pub text_color: Option<u32>,
    pub border_color: Option<u32>,
}

/// Colours that replace a widget's static colours when set.
#[derive(Clone, Copy, PartialEq, Eq, Structural)]
pub struct StyleOverride {
    pub background_color: Option<u32>,
    pub text_color: Option<u32>,
    pub border_color: Option<u32>,
}

/// `overriding` where it is set, else `base`.
pub open spec fn or_else(overriding: Option<u32>, base: Option<u32>) -> Option<u32> {
    match overriding {
        Some(c) => Some(c),
        None => base,
    }
}

impl Default for StyleOverride {
    fn default() -> (o: Self)
        ensures
            o.background_color is None,
            o.text_color is None,
            o.border_color is None,
    {
        StyleOverride { background_color: None, text_color: None, border_color: None }
    }
}

impl StyleOverride {
    /// The override that sets nothing.
    pub open spec fn empty() -> Self {
        StyleOverride { background_color: None, text_color: None, border_color: None }
    }

    /// Applies the override: each colour it sets replaces the base colour.
    pub fn apply(&self, base: StyleColors) -> (r: StyleColors)
        ensures
            r.background_color == or_else(self.background_color, base.background_color),
            r.text_color == or_else(self.text_color, base.text_color),
            r.border_color == or_else(self.border_color, base.border_color),
    {
        let mut out = base;
        if let Some(c) = self.background_color {
            out.background_color = Some(c);
        }
        if let Some(c) = self.text_color {
            out.text_color = Some(c);
        }
        if let Some(c) = self.border_color {
            out.border_color = Some(c);
        }
        out
    }
}

/// Runtime map from widget id to its style override.
pub struct StyleMap {
    inner: HashMap<WidgetId, StyleOverride>,
}

impl Default for StyleMap {
    fn default() -> (m: Self)
        ensures
            m.overrides() == Map::<WidgetId, StyleOverride>::empty(),
    {
        StyleMap { inner: HashMap::new() }
    }
}

impl StyleMap {
    /// The override of every widget that has one.
    pub closed spec fn overrides(&self) -> Map<WidgetId, StyleOverride> {
        self.inner@
    }

    /// An empty style map.
    pub fn new() -> (m: Self)
        ensures
            m.overrides() == Map::<WidgetId, StyleOverride>::empty(),
    {
        StyleMap { inner: HashMap::new() }
    }

    /// Sets the override of widget `id`, replacing any earlier one.
    pub fn set(&mut self, id: WidgetId, override_style: StyleOverride)
        ensures
            final(self).overrides() == old(self).overrides().insert(id, override_style),
    {
        self.inner.insert(id, override_style);
    }

    /// The override of widget `id`, if any.
    pub fn get(&self, id: WidgetId) -> (r: Option<StyleOverride>)
        ensures
            match r {
                Some(o) => self.overrides().contains_key(id) && o == self.overrides()[id],
                None => !self.overrides().contains_key(id),
            },
    {
        match self.inner.get(&id) {
            Some(o) => Some(*o),
            None => None,
        }
    }

    /// Replaces the override of widget `id` (an empty one when absent) by what `f` makes of it.
    pub fn mutate<F: FnOnce(StyleOverride) -> StyleOverride>(&mut self, id: WidgetId, f: F)
        requires
            f.requires(
                (if old(self).overrides().contains_key(id) {
                    old(self).overrides()[id]
                } else {
                    StyleOverride::empty()
                },),
            ),
        ensures
            exists|o: StyleOverride|
                f.ensures(
                    (if old(self).overrides().contains_key(id) {
                        old(self).overrides()[id]
                    } else {
                        StyleOverride::empty()
                    },),
                    o,
                ) && final(self).overrides() == old(self).overrides().insert(id, o),
    {
        let current = match self.inner.get(&id) {
            Some(o) => *o,
            None => StyleOverride { background_color: None, text_color: None, border_color: None },
        };
        let updated = f(current);
        self.inner.insert(id, updated);
    }

    /// Removes the override of widget `id`.
    pub fn clear(&mut self, id: WidgetId)
        ensures
            final(self).overrides() == old(self).overrides().remove(id),
    {
        self.inner.remove(&id);
    }
}

/// After `set`, the widget's override is the one set; other widgets keep theirs.
pub proof fn get_after_set(
    before: StyleMap,
    after: StyleMap,
    id: WidgetId,
    o: StyleOverride,
    other: WidgetId,
)
    requires
        after.overrides() == before.overrides().insert(id, o),
    ensures
        after.overrides().contains_key(id),
        after.overrides()[id] == o,
        other != id ==> (after.overrides().contains_key(other) == before.overrides().contains_key(
            other,
        ) && after.overrides()[other] == before.overrides()[other]),
{
}

/// After `clear`, the widget has no override; other widgets keep theirs.
pub proof fn get_after_clear(before: StyleMap, after: StyleMap, id: WidgetId, other: WidgetId)
    requires
        after.overrides() == before.overrides().remove(id),
    ensures
        !after.overrides().contains_key(id),
        other != id ==> (after.overrides().contains_key(other) == before.overrides().contains_key(
            other,
        ) && after.overrides()[other] == before.overrides()[other]),
{
}

/// Applying an override that sets nothing keeps every colour; applying an
/// override twice is the same as applying it once.
pub proof fn apply_laws(o: StyleOverride, base: StyleColors)
    ensures
        or_else(StyleOverride::empty().background_color, base.background_color)
            == base.background_color,
        or_else(StyleOverride::empty().text_color, base.text_color) == base.text_color,
        or_else(StyleOverride::empty().border_color, base.border_color) == base.border_color,
        or_else(o.background_color, or_else(o.background_color, base.background_color))
            == or_else(o.background_color, base.background_color),
        or_else(o.text_color, or_else(o.text_color, base.text_color)) == or_else(
            o.text_color,
            base.text_color,
        ),
        or_else(o.border_color, or_else(o.border_color, base.border_color)) == or_else(
            o.border_color,
            base.border_color,
        ),
{
}

} // verus!
