//! The style resolver: from a style expression and the active themes to
//! concrete rules.
//!
//! Aliases are replaced by what the themes give them first. A single value
//! then makes one rule for every viewport. A sequence of values makes one
//! rule per breakpoint, each limited to its breakpoint's range; where the
//! sequence is shorter than the table, its last value fills the rest. The
//! pseudo-state and the raw media condition of the expression go onto every
//! rule beside the breakpoint, never in its place.

use crate::breakpoint::{BreakpointRange, BreakpointTable};
use crate::registry::{
    global_rule_views, GlobalRule, GlobalRuleView, RegistryView, ScaleIndexError,
    UnknownAliasError,
};
use crate::scope::{scope_breakpoints, scope_color, scope_scale_step, ThemeScope};
use crate::style::{
    ExpressionView, Property, Pseudo, Style, StyleExpression, StyleTerm, StyleValue, StyleValues,
    ValuesView,
};
use vstd::prelude::*;

verus! {

/// Why an expression does not resolve.
#[derive(Clone, Copy, Debug, PartialEq, Eq)]
pub enum StyleError {
    /// A color alias that no active theme defines.
    UnknownAlias(UnknownAliasError),
    /// A scale step past the end of its scale.
    ScaleIndex(ScaleIndexError),
    /// A sequence of values without any value.
    NoValues,
    /// A sequence of values where no active theme has a breakpoint table.
    NoBreakpoints,
    /// A sequence of more values than there are breakpoints.
    TooManyValues { given: usize, breakpoints: usize },
}

/// One concrete rule: `property` is `value`, wherever the viewport is in
/// `breakpoint` (if there is one), the element is in state `pseudo`, and the
/// raw condition `media` holds (if there is one).
#[derive(Clone, Copy, Debug, PartialEq, Eq)]
pub struct StyleRule {
    pub property: Property,
    pub value: StyleValue,
    pub breakpoint: Option<BreakpointRange>,
    pub pseudo: Pseudo,
    pub media: Option<&'static str>,
}

/// The concrete value of `term` under `themes`.
pub open spec fn expand_term(themes: Seq<RegistryView>, term: StyleTerm) -> Result<
    StyleValue,
    StyleError,
> {
    match term {
        StyleTerm::Literal(value) => Ok(value),
        StyleTerm::ColorAlias(key) => match scope_color(themes, key) {
            Ok(color) => Ok(StyleValue::Color(color)),
            Err(e) => Err(StyleError::UnknownAlias(e)),
        },
        StyleTerm::ScaleStep(family, step) => match scope_scale_step(themes, family, step) {
            Ok(length) => Ok(StyleValue::Length(length)),
            Err(e) => Err(StyleError::ScaleIndex(e)),
        },
    }
}

/// The concrete values of `terms` under `themes`, or the error of the first
/// term that has none.
pub open spec fn expand_all(themes: Seq<RegistryView>, terms: Seq<StyleTerm>) -> Result<
    Seq<StyleValue>,
    StyleError,
>
    decreases terms.len(),
{
    if terms.len() == 0 {
        Ok(Seq::empty())
    } else {
        match expand_all(themes, terms.drop_last()) {
            Err(e) => Err(e),
            Ok(values) => match expand_term(themes, terms.last()) {
                Ok(value) => Ok(values.push(value)),
                Err(e) => Err(e),
            },
        }
    }
}

/// The value for breakpoint `i`: the one given for it, or else the last one
/// given.
pub open spec fn filled(values: Seq<StyleValue>, i: int) -> StyleValue {
    if i < values.len() {
        values[i]
    } else {
        values.last()
    }
}

/// One rule per breakpoint of `table`, in its order, each limited to its
/// range, with the values forward-filled.
pub open spec fn breakpoint_rules(
    property: Property,
    values: Seq<StyleValue>,
    table: Seq<BreakpointRange>,
    pseudo: Pseudo,
    media: Option<&'static str>,
) -> Seq<StyleRule> {
    Seq::new(
        table.len(),
        |i: int|
            StyleRule {
                property,
                value: filled(values, i),
                breakpoint: Some(table[i]),
                pseudo,
                media,
            },
    )
}

/// The rules of one expression under `themes`.
pub open spec fn resolved(themes: Seq<RegistryView>, expr: ExpressionView) -> Result<
    Seq<StyleRule>,
    StyleError,
> {
    match expr.values {
        ValuesView::Scalar(term) => match expand_term(themes, term) {
            Ok(value) => Ok(
                seq![
                    StyleRule {
                        property: expr.property,
                        value,
                        breakpoint: None,
                        pseudo: expr.pseudo,
                        media: expr.media,
                    },
                ],
            ),
            Err(e) => Err(e),
        },
        ValuesView::PerBreakpoint(terms) => if terms.len() == 0 {
            Err(StyleError::NoValues)
        } else {
            match scope_breakpoints(themes) {
                None => Err(StyleError::NoBreakpoints),
                Some(table) => if terms.len() > table.len() {
                    Err(
                        StyleError::TooManyValues {
                            given: terms.len() as usize,
                            breakpoints: table.len() as usize,
                        },
                    )
                } else {
                    match expand_all(themes, terms) {
                        Err(e) => Err(e),
                        Ok(values) => Ok(
                            breakpoint_rules(expr.property, values, table, expr.pseudo, expr.media),
                        ),
                    }
                },
            }
        },
    }
}

/// The rules of a list of expressions under `themes`: those of each
/// expression, in the order of the list, or the error of the first
/// expression that does not resolve.
pub open spec fn resolved_all(themes: Seq<RegistryView>, exprs: Seq<ExpressionView>) -> Result<
    Seq<StyleRule>,
    StyleError,
>
    decreases exprs.len(),
{
    if exprs.len() == 0 {
        Ok(Seq::empty())
    } else {
        match resolved_all(themes, exprs.drop_last()) {
            Err(e) => Err(e),
            Ok(rules) => match resolved(themes, exprs.last()) {
                Ok(more) => Ok(rules + more),
                Err(e) => Err(e),
            },
        }
    }
}

/// Whether `r` is the executable form of `expected`: the same error, or a
/// vector that holds the expected rules.
pub open spec fn yields(r: Result<Vec<StyleRule>, StyleError>, expected: Result<
    Seq<StyleRule>,
    StyleError,
>) -> bool {
    match expected {
        Ok(rules) => r is Ok && r->Ok_0@ == rules,
        Err(e) => r == Err::<Vec<StyleRule>, StyleError>(e),
    }
}

/// Replaces an alias by what the active themes give it.
pub fn expand(scope: &ThemeScope, term: StyleTerm) -> (r: Result<StyleValue, StyleError>)
    ensures
        r == expand_term(scope.active(), term),
{
    match term {
        StyleTerm::Literal(value) => Ok(value),
        StyleTerm::ColorAlias(key) => match scope.resolve_color(key) {
            Ok(color) => Ok(StyleValue::Color(color)),
            Err(e) => Err(StyleError::UnknownAlias(e)),
        },
        StyleTerm::ScaleStep(family, step) => match scope.resolve_scale_step(family, step) {
            Ok(length) => Ok(StyleValue::Length(length)),
            Err(e) => Err(StyleError::ScaleIndex(e)),
        },
    }
}

/// Spreads concrete values over the breakpoints of `table`: one rule per
/// breakpoint, the last value filling up where there are fewer values than
/// breakpoints. No values, or more than there are breakpoints, is an error.
pub fn spread(
    property: Property,
    values: &Vec<StyleValue>,
    table: &BreakpointTable,
    pseudo: Pseudo,
    media: Option<&'static str>,
) -> (r: Result<Vec<StyleRule>, StyleError>)
    ensures
        values@.len() == 0 ==> r == Err::<Vec<StyleRule>, StyleError>(StyleError::NoValues),
        values@.len() > table@.len() ==> r == Err::<Vec<StyleRule>, StyleError>(
            StyleError::TooManyValues { given: values@.len() as usize, breakpoints: table@.len() as usize },
        ),
        0 < values@.len() <= table@.len() ==> r is Ok && r->Ok_0@ == breakpoint_rules(
            property,
            values@,
            table@,
            pseudo,
            media,
        ),
{
    let ranges = table.ranges();
    let given = values.len();
    let n = ranges.len();
    if given == 0 {
        return Err(StyleError::NoValues);
    }
    if given > n {
        return Err(StyleError::TooManyValues { given, breakpoints: n });
    }
    let mut rules: Vec<StyleRule> = Vec::new();
    let mut i: usize = 0;
    while i < n
        invariant
            n == ranges@.len(),
            ranges@ == table@,
            0 < given == values@.len(),
            0 <= i <= n,
            rules@.len() == i,
            forall|j: int|
                0 <= j < i ==> #[trigger] rules@[j] == breakpoint_rules(
                    property,
                    values@,
                    table@,
                    pseudo,
                    media,
                )[j],
        decreases n - i,
    {
        let value = if i < given {
            values[i]
        } else {
            values[given - 1]
        };
        rules.push(StyleRule { property, value, breakpoint: Some(ranges[i]), pseudo, media });
        i += 1;
    }
    assert(rules@ =~= breakpoint_rules(property, values@, table@, pseudo, media));
    Ok(rules)
}

/// Resolves one expression against the active themes.
pub fn resolve(expr: &StyleExpression, scope: &ThemeScope) -> (r: Result<Vec<StyleRule>, StyleError>)
    ensures
        yields(r, resolved(scope.active(), expr@)),
{
    match &expr.values {
        StyleValues::Scalar(term) => match expand(scope, *term) {
            Ok(value) => {
                let mut rules: Vec<StyleRule> = Vec::new();
                rules.push(
                    StyleRule {
                        property: expr.property,
                        value,
                        breakpoint: None,
                        pseudo: expr.pseudo,
                        media: expr.media,
                    },
                );
                assert(rules@ =~= seq![rules@[0]]);
                Ok(rules)
            },
            Err(e) => Err(e),
        },
        StyleValues::PerBreakpoint(terms) => {
            let given = terms.len();
            if given == 0 {
                return Err(StyleError::NoValues);
            }
            let table = match scope.breakpoints() {
                None => {
                    return Err(StyleError::NoBreakpoints);
                },
                Some(table) => table,
            };
            let breakpoints = table.len();
            if given > breakpoints {
                return Err(StyleError::TooManyValues { given, breakpoints });
            }
            let mut values: Vec<StyleValue> = Vec::new();
            let mut i: usize = 0;
            assert(terms@.take(0) =~= Seq::empty());
            while i < given
                invariant
                    given == terms@.len(),
                    0 <= i <= given,
                    0 < given <= breakpoints == table@.len(),
                    values@.len() == i,
                    expr@.values == ValuesView::PerBreakpoint(terms@),
                    scope_breakpoints(scope.active()) == Some(table@),
                    expand_all(scope.active(), terms@.take(i as int)) == Ok::<
                        Seq<StyleValue>,
                        StyleError,
                    >(values@),
                decreases given - i,
            {
                proof {
                    assert(terms@.take(i + 1).drop_last() =~= terms@.take(i as int));
                    assert(terms@.take(i + 1).last() == terms@[i as int]);
                }
                match expand(scope, terms[i]) {
                    Ok(value) => {
                        values.push(value);
                    },
                    Err(e) => {
                        proof {
                            lemma_expand_all_error_stays(scope.active(), terms@, i + 1);
                        }
                        return Err(e);
                    },
                }
                i += 1;
            }
            assert(terms@.take(given as int) =~= terms@);
            spread(expr.property, &values, table, expr.pseudo, expr.media)
        },
    }
}

/// An error among the first `n` terms is the error of the whole sequence.
proof fn lemma_expand_all_error_stays(themes: Seq<RegistryView>, terms: Seq<StyleTerm>, n: int)
    requires
        0 <= n <= terms.len(),
        expand_all(themes, terms.take(n)) is Err,
    ensures
        expand_all(themes, terms) == expand_all(themes, terms.take(n)),
    decreases terms.len() - n,
{
    if n < terms.len() {
        assert(terms.take(n + 1).drop_last() =~= terms.take(n));
        lemma_expand_all_error_stays(themes, terms, n + 1);
    } else {
        assert(terms.take(n) =~= terms);
    }
}

/// An error among the first `n` expressions is the error of the whole list.
proof fn lemma_resolved_all_error_stays(
    themes: Seq<RegistryView>,
    exprs: Seq<ExpressionView>,
    n: int,
)
    requires
        0 <= n <= exprs.len(),
        resolved_all(themes, exprs.take(n)) is Err,
    ensures
        resolved_all(themes, exprs) == resolved_all(themes, exprs.take(n)),
    decreases exprs.len() - n,
{
    if n < exprs.len() {
        assert(exprs.take(n + 1).drop_last() =~= exprs.take(n));
        lemma_resolved_all_error_stays(themes, exprs, n + 1);
    } else {
        assert(exprs.take(n) =~= exprs);
    }
}

/// Resolves every expression of `style` against the active themes and lines
/// the rules up in the order of the expressions.
pub fn resolve_style(style: &Style, scope: &ThemeScope) -> (r: Result<Vec<StyleRule>, StyleError>)
    ensures
        yields(r, resolved_all(scope.active(), style@)),
{
    let n = style.len();
    let mut rules: Vec<StyleRule> = Vec::new();
    let mut i: usize = 0;
    assert(style@.take(0) =~= Seq::empty());
    while i < n
        invariant
            n == style@.len(),
            0 <= i <= n,
            resolved_all(scope.active(), style@.take(i as int)) == Ok::<Seq<StyleRule>, StyleError>(
                rules@,
            ),
        decreases n - i,
    {
        proof {
            assert(style@.take(i + 1).drop_last() =~= style@.take(i as int));
            assert(style@.take(i + 1).last() == style@[i as int]);
        }
        let expr = match style.get(i) {
            Some(expr) => expr,
            None => {
                return Ok(rules);
            },
        };
        match resolve(expr, scope) {
            Ok(more) => {
                let mut more = more;
                rules.append(&mut more);
            },
            Err(e) => {
                proof {
                    lemma_resolved_all_error_stays(scope.active(), style@, i + 1);
                }
                return Err(e);
            },
        }
        i += 1;
    }
    assert(style@.take(n as int) =~= style@);
    Ok(rules)
}

/// The concrete rules for everything a selector matches.
#[derive(Debug, PartialEq, Eq)]
pub struct SelectorRules {
    pub selector: &'static str,
    pub rules: Vec<StyleRule>,
}

/// `SelectorRules` as a mathematical value.
pub struct SelectorRulesView {
    pub selector: &'static str,
    pub rules: Seq<StyleRule>,
}

impl View for SelectorRules {
    type V = SelectorRulesView;

    open spec fn view(&self) -> SelectorRulesView {
        SelectorRulesView { selector: self.selector, rules: self.rules@ }
    }
}

/// The views of a sequence of selector rules, in order.
pub open spec fn selector_rules_views(s: Seq<SelectorRules>) -> Seq<SelectorRulesView> {
    Seq::new(s.len(), |i: int| s[i]@)
}

/// The concrete rules of a list of global styles under `themes`: one entry
/// per global style, in the order of the list and also where two name the
/// same selector, or the error of the first style that does not resolve.
pub open spec fn resolved_globals(themes: Seq<RegistryView>, globals: Seq<GlobalRuleView>) -> Result<
    Seq<SelectorRulesView>,
    StyleError,
>
    decreases globals.len(),
{
    if globals.len() == 0 {
        Ok(Seq::empty())
    } else {
        match resolved_globals(themes, globals.drop_last()) {
            Err(e) => Err(e),
            Ok(done) => match resolved_all(themes, globals.last().style) {
                Ok(rules) => Ok(done.push(SelectorRulesView { selector: globals.last().selector, rules })),
                Err(e) => Err(e),
            },
        }
    }
}

/// Whether `r` is the executable form of `expected`.
pub open spec fn yields_globals(r: Result<Vec<SelectorRules>, StyleError>, expected: Result<
    Seq<SelectorRulesView>,
    StyleError,
>) -> bool {
    match expected {
        Ok(entries) => r is Ok && selector_rules_views(r->Ok_0@) == entries,
        Err(e) => r is Err && r->Err_0 == e,
    }
}

proof fn lemma_resolved_globals_error_stays(
    themes: Seq<RegistryView>,
    globals: Seq<GlobalRuleView>,
    n: int,
)
    requires
        0 <= n <= globals.len(),
        resolved_globals(themes, globals.take(n)) is Err,
    ensures
        resolved_globals(themes, globals) == resolved_globals(themes, globals.take(n)),
    decreases globals.len() - n,
{
    if n < globals.len() {
        assert(globals.take(n + 1).drop_last() =~= globals.take(n));
        lemma_resolved_globals_error_stays(themes, globals, n + 1);
    } else {
        assert(globals.take(n) =~= globals);
    }
}

/// Resolves a list of global styles against the active themes. Nothing is
/// merged or dropped: every style gives one entry, in the order of the list.
pub fn resolve_globals(globals: &Vec<GlobalRule>, scope: &ThemeScope) -> (r: Result<
    Vec<SelectorRules>,
    StyleError,
>)
    ensures
        yields_globals(r, resolved_globals(scope.active(), global_rule_views(globals@))),
{
    let n = globals.len();
    let ghost views = global_rule_views(globals@);
    let mut entries: Vec<SelectorRules> = Vec::new();
    let mut i: usize = 0;
    assert(views.take(0) =~= Seq::empty());
    assert(selector_rules_views(entries@) =~= Seq::empty());
    while i < n
        invariant
            n == globals@.len(),
            views == global_rule_views(globals@),
            0 <= i <= n,
            entries@.len() == i,
            resolved_globals(scope.active(), views.take(i as int)) == Ok::<
                Seq<SelectorRulesView>,
                StyleError,
            >(selector_rules_views(entries@)),
        decreases n - i,
    {
        proof {
            assert(views.take(i + 1).drop_last() =~= views.take(i as int));
            assert(views.take(i + 1).last() == globals@[i as int]@);
        }
        let ghost before = entries@;
        match resolve_style(&globals[i].style, scope) {
            Ok(rules) => {
                entries.push(SelectorRules { selector: globals[i].selector, rules });
                assert(selector_rules_views(entries@) =~= selector_rules_views(before).push(
                    entries@[i as int]@,
                ));
            },
            Err(e) => {
                proof {
                    lemma_resolved_globals_error_stays(scope.active(), views, i + 1);
                }
                return Err(e);
            },
        }
        i += 1;
    }
    assert(views.take(n as int) =~= views);
    Ok(entries)
}

/// Forward fill: a sequence of values spread over a table gives one rule per
/// breakpoint, each limited to its breakpoint's range and carrying the
/// pseudo-state and raw media condition unchanged; a breakpoint with a value
/// of its own gets that value, every wider one gets the last value given.
pub proof fn lemma_forward_fill(
    property: Property,
    values: Seq<StyleValue>,
    table: Seq<BreakpointRange>,
    pseudo: Pseudo,
    media: Option<&'static str>,
    i: int,
)
    requires
        0 < values.len() <= table.len(),
        0 <= i < table.len(),
    ensures
        breakpoint_rules(property, values, table, pseudo, media).len() == table.len(),
        breakpoint_rules(property, values, table, pseudo, media)[i].breakpoint == Some(table[i]),
        breakpoint_rules(property, values, table, pseudo, media)[i].pseudo == pseudo,
        breakpoint_rules(property, values, table, pseudo, media)[i].media == media,
        i < values.len() ==> breakpoint_rules(property, values, table, pseudo, media)[i].value
            == values[i],
        i >= values.len() ==> breakpoint_rules(property, values, table, pseudo, media)[i].value
            == values[values.len() - 1],
{
}

/// Whether an expression is a single value that needs no scale and no
/// breakpoint table: a concrete value or a color alias.
pub open spec fn is_plain(expr: ExpressionView) -> bool {
    expr.values matches ValuesView::Scalar(term) && !(term is ScaleStep)
}

/// Whether every expression of every style in `globals` is plain.
pub open spec fn all_plain(globals: Seq<GlobalRuleView>) -> bool {
    forall|i: int, j: int|
        0 <= i < globals.len() && 0 <= j < globals[i].style.len() ==> is_plain(
            #[trigger] globals[i].style[j],
        )
}

/// Whether the most specific of `themes` has a color for every key.
pub open spec fn defines_all_colors(themes: Seq<RegistryView>) -> bool {
    themes.len() > 0 && forall|key: crate::app_theme::Color| themes[0].colors.contains_key(key)
}

/// Under a theme that has a color for every key, a list of plain
/// expressions resolves.
pub proof fn lemma_plain_style_resolves(themes: Seq<RegistryView>, exprs: Seq<ExpressionView>)
    requires
        defines_all_colors(themes),
        forall|i: int| 0 <= i < exprs.len() ==> is_plain(#[trigger] exprs[i]),
    ensures
        resolved_all(themes, exprs) is Ok,
    decreases exprs.len(),
{
    if exprs.len() > 0 {
        let front = exprs.drop_last();
        assert forall|i: int| 0 <= i < front.len() implies is_plain(#[trigger] front[i]) by {
            assert(front[i] == exprs[i]);
        }
        lemma_plain_style_resolves(themes, front);
        assert(is_plain(exprs[exprs.len() - 1]));
    }
}

/// Under a theme that has a color for every key, global styles made of
/// plain expressions resolve.
pub proof fn lemma_plain_globals_resolve(themes: Seq<RegistryView>, globals: Seq<GlobalRuleView>)
    requires
        defines_all_colors(themes),
        all_plain(globals),
    ensures
        resolved_globals(themes, globals) is Ok,
    decreases globals.len(),
{
    if globals.len() > 0 {
        let front = globals.drop_last();
        assert forall|i: int, j: int|
            0 <= i < front.len() && 0 <= j < front[i].style.len() implies is_plain(
            #[trigger] front[i].style[j],
        ) by {
            assert(front[i] == globals[i]);
            assert(is_plain(globals[i].style[j]));
        }
        lemma_plain_globals_resolve(themes, front);
        let last = globals[globals.len() - 1];
        assert forall|j: int| 0 <= j < last.style.len() implies is_plain(#[trigger] last.style[j]) by {
            assert(is_plain(globals[globals.len() - 1].style[j]));
        }
        lemma_plain_style_resolves(themes, last.style);
    }
}

} // verus!
