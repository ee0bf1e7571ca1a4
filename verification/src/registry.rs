//! The theme registry: color aliases, scales, the breakpoint table and the
//! global styles of one theme. A registry is built step by step and never
//! changed once it is in use; every setter hands back the next registry.

use crate::app_theme::{Breakpoint, Color};
use crate::breakpoint::{reports, valid_ranges, BreakpointRange, BreakpointTable, ConfigError};
use crate::style::{ExpressionView, ScaleFamily, Style};
use crate::values::{ColorValue, Length};
use vstd::prelude::*;

verus! {

/// A request for an alias that no active theme defines.
#[derive(Clone, Copy, Debug, PartialEq, Eq)]
pub enum UnknownAliasError {
    Color(Color),
    Breakpoint(Breakpoint),
}

/// A request for a step that the scale of `family`, `len` steps long, lacks.
#[derive(Clone, Copy, Debug, PartialEq, Eq)]
pub struct ScaleIndexError {
    pub family: ScaleFamily,
    pub step: usize,
    pub len: usize,
}

/// A style that applies to everything a selector matches.
#[derive(Debug)]
pub struct GlobalRule {
    pub selector: &'static str,
    pub style: Style,
}

/// `GlobalRule` as a mathematical value.
pub struct GlobalRuleView {
    pub selector: &'static str,
    pub style: Seq<ExpressionView>,
}

impl View for GlobalRule {
    type V = GlobalRuleView;

    open spec fn view(&self) -> GlobalRuleView {
        GlobalRuleView { selector: self.selector, style: self.style@ }
    }
}

/// The views of a sequence of global rules, in order.
pub open spec fn global_rule_views(s: Seq<GlobalRule>) -> Seq<GlobalRuleView> {
    Seq::new(s.len(), |i: int| s[i]@)
}

/// A registry as a mathematical value. A color or a scale that was never set
/// is absent from its map; `breakpoints` is `None` until a table is set.
pub struct RegistryView {
    pub colors: Map<Color, ColorValue>,
    pub scales: Map<ScaleFamily, Seq<Length>>,
    pub breakpoints: Option<Seq<BreakpointRange>>,
    pub global_styles: Seq<GlobalRuleView>,
}

/// The registry in which nothing is set.
pub open spec fn empty_registry() -> RegistryView {
    RegistryView {
        colors: Map::empty(),
        scales: Map::empty(),
        breakpoints: None,
        global_styles: Seq::empty(),
    }
}

/// The color that `registry` gives to `key`, or the error for its absence.
pub open spec fn color_of(registry: RegistryView, key: Color) -> Result<
    ColorValue,
    UnknownAliasError,
> {
    if registry.colors.contains_key(key) {
        Ok(registry.colors[key])
    } else {
        Err(UnknownAliasError::Color(key))
    }
}

/// The scale of `family` in `registry`: empty where none was set.
pub open spec fn scale_of(registry: RegistryView, family: ScaleFamily) -> Seq<Length> {
    if registry.scales.contains_key(family) {
        registry.scales[family]
    } else {
        Seq::empty()
    }
}

/// The value at `step` of the scale of `family`, or the error for a step
/// past its end.
pub open spec fn scale_step_of(registry: RegistryView, family: ScaleFamily, step: usize) -> Result<
    Length,
    ScaleIndexError,
> {
    let scale = scale_of(registry, family);
    if step < scale.len() {
        Ok(scale[step as int])
    } else {
        Err(ScaleIndexError { family, step, len: scale.len() as usize })
    }
}

/// The map that a list of settings amounts to: a later setting of a key
/// replaces an earlier one.
pub open spec fn color_map(entries: Seq<(Color, ColorValue)>) -> Map<Color, ColorValue>
    decreases entries.len(),
{
    if entries.len() == 0 {
        Map::empty()
    } else {
        color_map(entries.drop_last()).insert(entries.last().0, entries.last().1)
    }
}

/// The map that a list of scale settings amounts to: a later setting of a
/// family replaces an earlier one.
pub open spec fn scale_map(entries: Seq<(ScaleFamily, Vec<Length>)>) -> Map<
    ScaleFamily,
    Seq<Length>,
>
    decreases entries.len(),
{
    if entries.len() == 0 {
        Map::empty()
    } else {
        scale_map(entries.drop_last()).insert(entries.last().0, entries.last().1@)
    }
}

proof fn lemma_color_map_step(entries: Seq<(Color, ColorValue)>, i: int)
    requires
        0 <= i < entries.len(),
    ensures
        color_map(entries.take(i + 1)) == color_map(entries.take(i)).insert(
            entries[i].0,
            entries[i].1,
        ),
{
    assert(entries.take(i + 1).drop_last() =~= entries.take(i));
}

proof fn lemma_scale_map_step(entries: Seq<(ScaleFamily, Vec<Length>)>, i: int)
    requires
        0 <= i < entries.len(),
    ensures
        scale_map(entries.take(i + 1)) == scale_map(entries.take(i)).insert(
            entries[i].0,
            entries[i].1@,
        ),
{
    assert(entries.take(i + 1).drop_last() =~= entries.take(i));
}

/// One theme.
#[derive(Debug)]
pub struct ThemeRegistry {
    colors: Vec<(Color, ColorValue)>,
    scales: Vec<(ScaleFamily, Vec<Length>)>,
    breakpoints: Option<BreakpointTable>,
    global_styles: Vec<GlobalRule>,
}

impl View for ThemeRegistry {
    type V = RegistryView;

    closed spec fn view(&self) -> RegistryView {
        RegistryView {
            colors: color_map(self.colors@),
            scales: scale_map(self.scales@),
            breakpoints: match self.breakpoints {
                Some(table) => Some(table@),
                None => None,
            },
            global_styles: global_rule_views(self.global_styles@),
        }
    }
}

impl ThemeRegistry {
    /// A registry in which nothing is set: every lookup in it fails.
    pub fn build() -> (r: ThemeRegistry)
        ensures
            r@ == empty_registry(),
    {
        let r = ThemeRegistry {
            colors: Vec::new(),
            scales: Vec::new(),
            breakpoints: None,
            global_styles: Vec::new(),
        };
        assert(r@.global_styles =~= Seq::empty());
        r
    }

    /// The registry in which `key` stands for `value` and all else is as in
    /// this one.
    pub fn set_color(self, key: Color, value: ColorValue) -> (r: ThemeRegistry)
        ensures
            r@ == (RegistryView { colors: self@.colors.insert(key, value), ..self@ }),
    {
        let mut colors = self.colors;
        let ghost before = colors@;
        colors.push((key, value));
        assert(colors@.drop_last() =~= before);
        ThemeRegistry {
            colors,
            scales: self.scales,
            breakpoints: self.breakpoints,
            global_styles: self.global_styles,
        }
    }

    /// The registry in which the scale of `family` is `values` and all else
    /// is as in this one.
    pub fn set_scale(self, family: ScaleFamily, values: Vec<Length>) -> (r: ThemeRegistry)
        ensures
            r@ == (RegistryView { scales: self@.scales.insert(family, values@), ..self@ }),
    {
        let mut scales = self.scales;
        let ghost before = scales@;
        scales.push((family, values));
        assert(scales@.drop_last() =~= before);
        ThemeRegistry {
            colors: self.colors,
            scales,
            breakpoints: self.breakpoints,
            global_styles: self.global_styles,
        }
    }

    /// Validates `ranges` as a breakpoint table. If they are one, the result
    /// is the registry with that table and all else as in this one; if not,
    /// the error says what is wrong with them, and no registry comes back.
    pub fn set_breakpoints(self, ranges: Vec<BreakpointRange>) -> (r: Result<
        ThemeRegistry,
        ConfigError,
    >)
        ensures
            r is Ok <==> valid_ranges(ranges@),
            r matches Ok(next) ==> next@ == (RegistryView {
                breakpoints: Some(ranges@),
                ..self@
            }),
            r matches Err(e) ==> reports(ranges@, e),
    {
        match BreakpointTable::new(ranges) {
            Ok(table) => Ok(
                ThemeRegistry {
                    colors: self.colors,
                    scales: self.scales,
                    breakpoints: Some(table),
                    global_styles: self.global_styles,
                },
            ),
            Err(e) => Err(e),
        }
    }

    /// The registry with `style` for `selector` appended to the global
    /// styles. Earlier styles stay, also those for the same selector.
    pub fn add_global_style(self, selector: &'static str, style: Style) -> (r: ThemeRegistry)
        ensures
            r@ == (RegistryView {
                global_styles: self@.global_styles.push(
                    GlobalRuleView { selector, style: style@ },
                ),
                ..self@
            }),
    {
        let mut global_styles = self.global_styles;
        let ghost before = global_styles@;
        global_styles.push(GlobalRule { selector, style });
        assert(global_rule_views(global_styles@) =~= global_rule_views(before).push(
            global_styles@[before.len() as int]@,
        ));
        ThemeRegistry {
            colors: self.colors,
            scales: self.scales,
            breakpoints: self.breakpoints,
            global_styles,
        }
    }

    /// The color that `key` stands for.
    pub fn resolve_color(&self, key: Color) -> (r: Result<ColorValue, UnknownAliasError>)
        ensures
            r == color_of(self@, key),
    {
        let mut i = self.colors.len();
        assert(self.colors@.take(i as int) =~= self.colors@);
        while i > 0
            invariant
                0 <= i <= self.colors.len(),
                color_map(self.colors@).contains_key(key) == color_map(
                    self.colors@.take(i as int),
                ).contains_key(key),
                color_map(self.colors@).contains_key(key) ==> color_map(self.colors@)[key]
                    == color_map(self.colors@.take(i as int))[key],
            decreases i,
        {
            i -= 1;
            let (k, v) = self.colors[i];
            proof {
                lemma_color_map_step(self.colors@, i as int);
            }
            if k == key {
                return Ok(v);
            }
        }
        assert(self.colors@.take(0) =~= Seq::empty());
        Err(UnknownAliasError::Color(key))
    }

    /// The value at `step` of the scale of `family`.
    pub fn resolve_scale_step(&self, family: ScaleFamily, step: usize) -> (r: Result<
        Length,
        ScaleIndexError,
    >)
        ensures
            r == scale_step_of(self@, family, step),
    {
        let mut i = self.scales.len();
        assert(self.scales@.take(i as int) =~= self.scales@);
        while i > 0
            invariant
                0 <= i <= self.scales.len(),
                scale_map(self.scales@).contains_key(family) == scale_map(
                    self.scales@.take(i as int),
                ).contains_key(family),
                scale_map(self.scales@).contains_key(family) ==> scale_map(self.scales@)[family]
                    == scale_map(self.scales@.take(i as int))[family],
            decreases i,
        {
            i -= 1;
            let entry = &self.scales[i];
            proof {
                lemma_scale_map_step(self.scales@, i as int);
            }
            if entry.0 == family {
                let len = entry.1.len();
                if step < len {
                    return Ok(entry.1[step]);
                } else {
                    return Err(ScaleIndexError { family, step, len });
                }
            }
        }
        assert(self.scales@.take(0) =~= Seq::empty());
        Err(ScaleIndexError { family, step, len: 0 })
    }

    /// Whether a scale was set for `family`.
    pub fn has_scale(&self, family: ScaleFamily) -> (r: bool)
        ensures
            r == self@.scales.contains_key(family),
    {
        let mut i = self.scales.len();
        assert(self.scales@.take(i as int) =~= self.scales@);
        while i > 0
            invariant
                0 <= i <= self.scales.len(),
                scale_map(self.scales@).contains_key(family) == scale_map(
                    self.scales@.take(i as int),
                ).contains_key(family),
            decreases i,
        {
            i -= 1;
            proof {
                lemma_scale_map_step(self.scales@, i as int);
            }
            if self.scales[i].0 == family {
                return true;
            }
        }
        assert(self.scales@.take(0) =~= Seq::empty());
        false
    }

    /// The breakpoint table, if one was set.
    pub fn breakpoint_table(&self) -> (r: Option<&BreakpointTable>)
        ensures
            r is Some <==> self@.breakpoints is Some,
            r matches Some(table) ==> Some(table@) == self@.breakpoints,
    {
        self.breakpoints.as_ref()
    }

    /// The global styles, in the order in which they were added.
    pub fn global_styles(&self) -> (r: &Vec<GlobalRule>)
        ensures
            global_rule_views(r@) == self@.global_styles,
    {
        &self.global_styles
    }

    /// The number of global styles.
    pub fn global_style_count(&self) -> (n: usize)
        ensures
            n == self@.global_styles.len(),
    {
        self.global_styles.len()
    }

    /// The global style at position `index`.
    pub fn global_style(&self, index: usize) -> (r: Option<&GlobalRule>)
        ensures
            index < self@.global_styles.len() ==> r is Some && r->0@ == self@.global_styles[index as int],
            index >= self@.global_styles.len() ==> r is None,
    {
        if index < self.global_styles.len() {
            Some(&self.global_styles[index])
        } else {
            None
        }
    }
}

} // verus!
