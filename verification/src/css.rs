//! Rules as style sheet text.

use crate::media::{condition, decimal, push_decimal, rule_condition};
use crate::resolver::StyleRule;
use crate::style::{Property, Pseudo, StyleValue};
use crate::values::{ColorValue, Length, Unit};
use vstd::prelude::*;
use vstd::string::StringExecFns;

verus! {

/// The name of a property in a style sheet.
pub open spec fn property_name(property: Property) -> Seq<char> {
    match property {
        Property::Color => "color"@,
        Property::BackgroundColor => "background-color"@,
        Property::BorderColor => "border-color"@,
        Property::BorderLeftWidth => "border-left-width"@,
        Property::BorderLeftStyle => "border-left-style"@,
        Property::BorderRadius => "border-radius"@,
        Property::BoxSizing => "box-sizing"@,
        Property::ColumnCount => "column-count"@,
        Property::ColumnWidth => "column-width"@,
        Property::FontFamily => "font-family"@,
        Property::FontSize => "font-size"@,
        Property::FontSmoothing => "-webkit-font-smoothing"@,
        Property::Margin => "margin"@,
        Property::MarginTop => "margin-top"@,
        Property::MarginRight => "margin-right"@,
        Property::MarginBottom => "margin-bottom"@,
        Property::MarginLeft => "margin-left"@,
        Property::Padding => "padding"@,
        Property::PaddingTop => "padding-top"@,
        Property::PaddingRight => "padding-right"@,
        Property::PaddingBottom => "padding-bottom"@,
        Property::PaddingLeft => "padding-left"@,
    }
}

/// The suffix of a unit.
pub open spec fn unit_suffix(unit: Unit) -> Seq<char> {
    match unit {
        Unit::Px => "px"@,
        Unit::Rem => "rem"@,
        Unit::Em => "em"@,
        Unit::Cm => "cm"@,
        Unit::Vw => "vw"@,
        Unit::Vh => "vh"@,
    }
}

/// What a pseudo-state adds to a selector.
pub open spec fn pseudo_suffix(pseudo: Pseudo) -> Seq<char> {
    match pseudo {
        Pseudo::Normal => Seq::empty(),
        Pseudo::Hover => ":hover"@,
        Pseudo::Active => ":active"@,
        Pseudo::Focus => ":focus"@,
    }
}

/// The character of a hexadecimal digit, in lower case.
pub open spec fn hex_char(d: int) -> char {
    if d == 0 {
        '0'
    } else if d == 1 {
        '1'
    } else if d == 2 {
        '2'
    } else if d == 3 {
        '3'
    } else if d == 4 {
        '4'
    } else if d == 5 {
        '5'
    } else if d == 6 {
        '6'
    } else if d == 7 {
        '7'
    } else if d == 8 {
        '8'
    } else if d == 9 {
        '9'
    } else if d == 10 {
        'a'
    } else if d == 11 {
        'b'
    } else if d == 12 {
        'c'
    } else if d == 13 {
        'd'
    } else if d == 14 {
        'e'
    } else {
        'f'
    }
}

/// The low 24 bits of `code` as six hexadecimal digits, highest first.
pub open spec fn hex6(code: u32) -> Seq<char> {
    seq![
        hex_char(((code / 0x100000) % 16) as int),
        hex_char(((code / 0x10000) % 16) as int),
        hex_char(((code / 0x1000) % 16) as int),
        hex_char(((code / 0x100) % 16) as int),
        hex_char(((code / 0x10) % 16) as int),
        hex_char((code % 16) as int),
    ]
}

/// A length as text: the number, then the unit.
pub open spec fn length_text(length: Length) -> Seq<char> {
    decimal(length.value as nat) + unit_suffix(length.unit)
}

/// A color as text.
pub open spec fn color_text(color: ColorValue) -> Seq<char> {
    match color {
        ColorValue::Hex(code) => "#"@ + hex6(code),
        ColorValue::Hsl { hue, saturation, lightness } => "hsl("@ + decimal(hue as nat) + ","@
            + decimal(saturation as nat) + "%,"@ + decimal(lightness as nat) + "%)"@,
        ColorValue::Rgb { red, green, blue } => "rgb("@ + decimal(red as nat) + ","@ + decimal(
            green as nat,
        ) + ","@ + decimal(blue as nat) + ")"@,
    }
}

/// A value as text.
pub open spec fn value_text(value: StyleValue) -> Seq<char> {
    match value {
        StyleValue::Length(length) => length_text(length),
        StyleValue::Color(color) => color_text(color),
        StyleValue::Number(n) => decimal(n as nat),
        StyleValue::Keyword(word) => word@,
    }
}

/// The declaration of a rule: its property, a colon, its value, a semicolon.
pub open spec fn declaration_text(rule: StyleRule) -> Seq<char> {
    property_name(rule.property) + ": "@ + value_text(rule.value) + ";"@
}

/// A rule for what `selector` matches, as style sheet text: the selector
/// with the pseudo-state, then the declaration in braces, and around both
/// the media query, if the rule has a condition.
pub open spec fn rule_text(selector: Seq<char>, rule: StyleRule) -> Seq<char> {
    let block = selector + pseudo_suffix(rule.pseudo) + " { "@ + declaration_text(rule) + " }"@;
    match rule_condition(rule) {
        None => block,
        Some(query) => query + " { "@ + block + " }"@,
    }
}

/// The name of `property` in a style sheet.
pub fn property_str(property: Property) -> (r: &'static str)
    ensures
        r@ == property_name(property),
{
    match property {
        Property::Color => "color",
        Property::BackgroundColor => "background-color",
        Property::BorderColor => "border-color",
        Property::BorderLeftWidth => "border-left-width",
        Property::BorderLeftStyle => "border-left-style",
        Property::BorderRadius => "border-radius",
        Property::BoxSizing => "box-sizing",
        Property::ColumnCount => "column-count",
        Property::ColumnWidth => "column-width",
        Property::FontFamily => "font-family",
        Property::FontSize => "font-size",
        Property::FontSmoothing => "-webkit-font-smoothing",
        Property::Margin => "margin",
        Property::MarginTop => "margin-top",
        Property::MarginRight => "margin-right",
        Property::MarginBottom => "margin-bottom",
        Property::MarginLeft => "margin-left",
        Property::Padding => "padding",
        Property::PaddingTop => "padding-top",
        Property::PaddingRight => "padding-right",
        Property::PaddingBottom => "padding-bottom",
        Property::PaddingLeft => "padding-left",
    }
}

fn unit_str(unit: Unit) -> (r: &'static str)
    ensures
        r@ == unit_suffix(unit),
{
    match unit {
        Unit::Px => "px",
        Unit::Rem => "rem",
        Unit::Em => "em",
        Unit::Cm => "cm",
        Unit::Vw => "vw",
        Unit::Vh => "vh",
    }
}

fn pseudo_str(pseudo: Pseudo) -> (r: &'static str)
    ensures
        r@ == pseudo_suffix(pseudo),
{
    proof {
        reveal_strlit("");
    }
    let r = match pseudo {
        Pseudo::Normal => "",
        Pseudo::Hover => ":hover",
        Pseudo::Active => ":active",
        Pseudo::Focus => ":focus",
    };
    assert(r@ =~= pseudo_suffix(pseudo));
    r
}

fn hex_str(d: u32) -> (r: &'static str)
    requires
        d < 16,
    ensures
        r@ == seq![hex_char(d as int)],
{
    proof {
        reveal_strlit("0");
        reveal_strlit("1");
        reveal_strlit("2");
        reveal_strlit("3");
        reveal_strlit("4");
        reveal_strlit("5");
        reveal_strlit("6");
        reveal_strlit("7");
        reveal_strlit("8");
        reveal_strlit("9");
        reveal_strlit("a");
        reveal_strlit("b");
        reveal_strlit("c");
        reveal_strlit("d");
        reveal_strlit("e");
        reveal_strlit("f");
    }
    let r = if d == 0 {
        "0"
    } else if d == 1 {
        "1"
    } else if d == 2 {
        "2"
    } else if d == 3 {
        "3"
    } else if d == 4 {
        "4"
    } else if d == 5 {
        "5"
    } else if d == 6 {
        "6"
    } else if d == 7 {
        "7"
    } else if d == 8 {
        "8"
    } else if d == 9 {
        "9"
    } else if d == 10 {
        "a"
    } else if d == 11 {
        "b"
    } else if d == 12 {
        "c"
    } else if d == 13 {
        "d"
    } else if d == 14 {
        "e"
    } else {
        "f"
    };
    assert(r@ =~= seq![hex_char(d as int)]);
    r
}

fn push_hex6(out: &mut String, code: u32)
    ensures
        final(out)@ == old(out)@ + hex6(code),
{
    out.append(hex_str((code / 0x100000) % 16));
    out.append(hex_str((code / 0x10000) % 16));
    out.append(hex_str((code / 0x1000) % 16));
    out.append(hex_str((code / 0x100) % 16));
    out.append(hex_str((code / 0x10) % 16));
    out.append(hex_str(code % 16));
    assert(out@ =~= old(out)@ + hex6(code));
}

fn push_color(out: &mut String, color: ColorValue)
    ensures
        final(out)@ == old(out)@ + color_text(color),
{
    match color {
        ColorValue::Hex(code) => {
            out.append("#");
            push_hex6(out, code);
            assert(out@ =~= old(out)@ + color_text(color));
        },
        ColorValue::Hsl { hue, saturation, lightness } => {
            out.append("hsl(");
            push_decimal(out, hue as u32);
            out.append(",");
            push_decimal(out, saturation as u32);
            out.append("%,");
            push_decimal(out, lightness as u32);
            out.append("%)");
            assert(out@ =~= old(out)@ + color_text(color));
        },
        ColorValue::Rgb { red, green, blue } => {
            out.append("rgb(");
            push_decimal(out, red as u32);
            out.append(",");
            push_decimal(out, green as u32);
            out.append(",");
            push_decimal(out, blue as u32);
            out.append(")");
            assert(out@ =~= old(out)@ + color_text(color));
        },
    }
}

fn push_value(out: &mut String, value: StyleValue)
    ensures
        final(out)@ == old(out)@ + value_text(value),
{
    match value {
        StyleValue::Length(length) => {
            push_decimal(out, length.value);
            out.append(unit_str(length.unit));
            assert(out@ =~= old(out)@ + value_text(value));
        },
        StyleValue::Color(color) => {
            push_color(out, color);
        },
        StyleValue::Number(n) => {
            push_decimal(out, n);
        },
        StyleValue::Keyword(word) => {
            out.append(word);
        },
    }
}

/// The value of a rule as text.
pub fn value_string(value: StyleValue) -> (r: String)
    ensures
        r@ == value_text(value),
{
    let mut out = String::new();
    push_value(&mut out, value);
    assert(out@ =~= value_text(value));
    out
}

/// The declaration of a rule as text.
pub fn declaration(rule: &StyleRule) -> (r: String)
    ensures
        r@ == declaration_text(*rule),
{
    let mut out = String::from_str(property_str(rule.property));
    out.append(": ");
    push_value(&mut out, rule.value);
    out.append(";");
    out
}

/// A rule for what `selector` matches, as style sheet text.
pub fn rule_string(selector: &str, rule: &StyleRule) -> (r: String)
    ensures
        r@ == rule_text(selector@, *rule),
{
    let mut block = String::from_str(selector);
    block.append(pseudo_str(rule.pseudo));
    block.append(" { ");
    let text = declaration(rule);
    block.append(text.as_str());
    block.append(" }");
    match condition(rule) {
        None => block,
        Some(query) => {
            let mut out = query;
            out.append(" { ");
            out.append(block.as_str());
            out.append(" }");
            out
        },
    }
}

} // verus!
