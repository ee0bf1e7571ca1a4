//! The active themes of a render pass.
//!
//! A scope holds the themes activated for one subtree, most specific first,
//! and borrows the scope around it. A lookup asks the themes in that order
//! and takes the first that defines the alias, so a theme activated further
//! in overrides those around it. Activation never changes the outer scope:
//! the inner one lives only as long as the subtree is rendered, whichever
//! way the rendering ends.

use crate::app_theme::Color;
use crate::breakpoint::{BreakpointRange, BreakpointTable};
use crate::registry::{
    color_of, scale_step_of, RegistryView, ScaleIndexError, ThemeRegistry, UnknownAliasError,
};
use crate::style::ScaleFamily;
use crate::values::{ColorValue, Length};
use vstd::prelude::*;

verus! {

/// The views of a list of registries, in order.
pub open spec fn registry_views(s: Seq<ThemeRegistry>) -> Seq<RegistryView> {
    Seq::new(s.len(), |i: int| s[i]@)
}

/// The themes that are active once `themes` are activated inside `outer`.
pub open spec fn pushed(outer: Seq<RegistryView>, themes: Seq<RegistryView>) -> Seq<RegistryView> {
    themes + outer
}

/// The themes that stay active when the `count` most specific ones leave.
pub open spec fn popped(active: Seq<RegistryView>, count: nat) -> Seq<RegistryView> {
    active.skip(count as int)
}

/// The color of `key` among `themes`: that of the first theme that defines
/// it.
pub open spec fn scope_color(themes: Seq<RegistryView>, key: Color) -> Result<
    ColorValue,
    UnknownAliasError,
>
    decreases themes.len(),
{
    if themes.len() == 0 {
        Err(UnknownAliasError::Color(key))
    } else if themes[0].colors.contains_key(key) {
        color_of(themes[0], key)
    } else {
        scope_color(themes.skip(1), key)
    }
}

/// The value at `step` of the scale of `family` among `themes`: the first
/// theme that sets a scale for the family decides.
pub open spec fn scope_scale_step(themes: Seq<RegistryView>, family: ScaleFamily, step: usize) -> Result<
    Length,
    ScaleIndexError,
>
    decreases themes.len(),
{
    if themes.len() == 0 {
        Err(ScaleIndexError { family, step, len: 0 })
    } else if themes[0].scales.contains_key(family) {
        scale_step_of(themes[0], family, step)
    } else {
        scope_scale_step(themes.skip(1), family, step)
    }
}

/// The breakpoint table among `themes`: that of the first theme that has
/// one.
pub open spec fn scope_breakpoints(themes: Seq<RegistryView>) -> Option<Seq<BreakpointRange>>
    decreases themes.len(),
{
    if themes.len() == 0 {
        None
    } else if themes[0].breakpoints is Some {
        themes[0].breakpoints
    } else {
        scope_breakpoints(themes.skip(1))
    }
}

/// The themes active in one subtree.
pub struct ThemeScope<'a> {
    themes: Option<&'a Vec<ThemeRegistry>>,
    outer: Option<&'a ThemeScope<'a>>,
}

impl<'a> ThemeScope<'a> {
    /// All active themes, most specific first.
    pub closed spec fn active(&self) -> Seq<RegistryView>
        decreases self,
    {
        self.own() + match self.outer {
            Some(outer) => outer.active(),
            None => Seq::empty(),
        }
    }

    spec fn own(&self) -> Seq<RegistryView> {
        match self.themes {
            Some(themes) => registry_views(themes@),
            None => Seq::empty(),
        }
    }

    /// The scope in which no theme is active.
    pub fn root() -> (r: ThemeScope<'static>)
        ensures
            r.active() == Seq::<RegistryView>::empty(),
    {
        let r = ThemeScope { themes: None, outer: None };
        assert(r.active() =~= Seq::empty());
        r
    }

    /// The scope of a subtree of this one in which `themes` are activated,
    /// the first of them being the most specific.
    pub fn nested<'b>(&'b self, themes: &'b Vec<ThemeRegistry>) -> (r: ThemeScope<'b>)
        ensures
            r.active() == pushed(self.active(), registry_views(themes@)),
    {
        ThemeScope { themes: Some(themes), outer: Some(self) }
    }

    fn own_theme(&self, i: usize) -> (r: Option<&ThemeRegistry>)
        ensures
            self.own().len() <= usize::MAX,
            i < self.own().len() ==> r is Some && r->0@ == self.own()[i as int],
            i >= self.own().len() ==> r is None,
    {
        match self.themes {
            Some(themes) => if i < themes.len() {
                Some(&themes[i])
            } else {
                None
            },
            None => None,
        }
    }

    /// The color that `key` stands for in this scope.
    pub fn resolve_color(&self, key: Color) -> (r: Result<ColorValue, UnknownAliasError>)
        ensures
            r == scope_color(self.active(), key),
        decreases self,
    {
        let ghost own = self.own();
        let ghost rest = match self.outer {
            Some(outer) => outer.active(),
            None => Seq::empty(),
        };
        let mut i: usize = 0;
        assert((own + rest).skip(0) =~= own + rest);
        loop
            invariant
                0 <= i <= own.len(),
                own == self.own(),
                self.active() == own + rest,
                scope_color(self.active(), key) == scope_color((own + rest).skip(i as int), key),
            ensures
                i == own.len(),
            decreases own.len() - i,
        {
            let theme = match self.own_theme(i) {
                Some(theme) => theme,
                None => {
                    break;
                },
            };
            let found = theme.resolve_color(key);
            proof {
                let here = (own + rest).skip(i as int);
                assert(here[0] == own[i as int]);
                assert(here.skip(1) =~= (own + rest).skip(i + 1));
            }
            if found.is_ok() {
                return found;
            }
            i += 1;
        }
        assert((own + rest).skip(i as int) =~= rest);
        match self.outer {
            Some(outer) => outer.resolve_color(key),
            None => Err(UnknownAliasError::Color(key)),
        }
    }

    /// The value at `step` of the scale of `family` in this scope.
    pub fn resolve_scale_step(&self, family: ScaleFamily, step: usize) -> (r: Result<
        Length,
        ScaleIndexError,
    >)
        ensures
            r == scope_scale_step(self.active(), family, step),
        decreases self,
    {
        let ghost own = self.own();
        let ghost rest = match self.outer {
            Some(outer) => outer.active(),
            None => Seq::empty(),
        };
        let mut i: usize = 0;
        assert((own + rest).skip(0) =~= own + rest);
        loop
            invariant
                0 <= i <= own.len(),
                own == self.own(),
                self.active() == own + rest,
                scope_scale_step(self.active(), family, step) == scope_scale_step(
                    (own + rest).skip(i as int),
                    family,
                    step,
                ),
            ensures
                i == own.len(),
            decreases own.len() - i,
        {
            let theme = match self.own_theme(i) {
                Some(theme) => theme,
                None => {
                    break;
                },
            };
            proof {
                let here = (own + rest).skip(i as int);
                assert(here[0] == own[i as int]);
                assert(here.skip(1) =~= (own + rest).skip(i + 1));
            }
            if theme.has_scale(family) {
                return theme.resolve_scale_step(family, step);
            }
            i += 1;
        }
        assert((own + rest).skip(i as int) =~= rest);
        match self.outer {
            Some(outer) => outer.resolve_scale_step(family, step),
            None => Err(ScaleIndexError { family, step, len: 0 }),
        }
    }

    /// The breakpoint table of this scope, if an active theme has one.
    pub fn breakpoints(&self) -> (r: Option<&BreakpointTable>)
        ensures
            r is Some <==> scope_breakpoints(self.active()) is Some,
            r matches Some(table) ==> Some(table@) == scope_breakpoints(self.active()),
        decreases self,
    {
        let ghost own = self.own();
        let ghost rest = match self.outer {
            Some(outer) => outer.active(),
            None => Seq::empty(),
        };
        let mut i: usize = 0;
        assert((own + rest).skip(0) =~= own + rest);
        loop
            invariant
                0 <= i <= own.len(),
                own == self.own(),
                self.active() == own + rest,
                scope_breakpoints(self.active()) == scope_breakpoints((own + rest).skip(i as int)),
            ensures
                i == own.len(),
            decreases own.len() - i,
        {
            let theme = match self.own_theme(i) {
                Some(theme) => theme,
                None => {
                    break;
                },
            };
            let found = theme.breakpoint_table();
            proof {
                let here = (own + rest).skip(i as int);
                assert(here[0] == own[i as int]);
                assert(here.skip(1) =~= (own + rest).skip(i + 1));
            }
            if found.is_some() {
                return found;
            }
            i += 1;
        }
        assert((own + rest).skip(i as int) =~= rest);
        match self.outer {
            Some(outer) => outer.breakpoints(),
            None => None,
        }
    }
}

/// Renders a subtree with `themes` activated inside `outer`: `body` gets the
/// inner scope and its result is handed back as it is, success or failure.
/// The outer scope is only borrowed, so what it resolves is the same after
/// the subtree as before it.
pub fn activate_theme<R, F: FnOnce(&ThemeScope) -> R>(
    outer: &ThemeScope,
    themes: &Vec<ThemeRegistry>,
    body: F,
) -> (r: R)
    requires
        forall|inner: ThemeScope|
            inner.active() == pushed(outer.active(), registry_views(themes@))
                ==> #[trigger] body.requires((&inner,)),
    ensures
        exists|inner: ThemeScope|
            inner.active() == pushed(outer.active(), registry_views(themes@))
                && #[trigger] body.ensures((&inner,), r),
{
    let inner = outer.nested(themes);
    body(&inner)
}

/// Leaving a subtree gives back exactly the scope around it.
pub proof fn lemma_pop_undoes_push(outer: Seq<RegistryView>, themes: Seq<RegistryView>)
    ensures
        popped(pushed(outer, themes), themes.len()) == outer,
{
    assert(popped(pushed(outer, themes), themes.len()) =~= outer);
}

/// Inside a subtree an alias resolves against the themes activated for it:
/// if one of them defines the color, the scope around them is not asked.
/// Only what they leave undefined falls through to the outer scope.
pub proof fn lemma_inner_themes_override(
    outer: Seq<RegistryView>,
    themes: Seq<RegistryView>,
    key: Color,
)
    ensures
        scope_color(pushed(outer, themes), key) == if scope_color(themes, key) is Ok {
            scope_color(themes, key)
        } else {
            scope_color(outer, key)
        },
    decreases themes.len(),
{
    if themes.len() == 0 {
        assert(pushed(outer, themes) =~= outer);
    } else {
        assert(pushed(outer, themes)[0] == themes[0]);
        assert(pushed(outer, themes).skip(1) =~= pushed(outer, themes.skip(1)));
        lemma_inner_themes_override(outer, themes.skip(1), key);
    }
}

} // verus!
