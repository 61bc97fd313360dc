//! Colors and fixed words of rendered output.

use colored::Colorize;
use vstd::prelude::*;
use vstd::string::*;

use crate::diagnostic::{LabelStyle, Severity};

verus! {

/// How a piece of text is shown.
#[derive(Debug, Clone, Copy, PartialEq, Eq, Structural)]
pub enum TextStyle {
    Plain,
    Red,
    RedBold,
    Green,
    GreenBold,
    YellowBold,
    BlueBold,
    BlueItalic,
    CyanBold,
    CyanItalic,
    WhiteBold,
    Dimmed,
}

/// The terminal sequence that turns a style on.
pub open spec fn turn_on(style: TextStyle) -> Seq<char> {
    match style {
        TextStyle::Plain => ""@,
        TextStyle::Red => "\u{1b}[31m"@,
        TextStyle::RedBold => "\u{1b}[1;31m"@,
        TextStyle::Green => "\u{1b}[32m"@,
        TextStyle::GreenBold => "\u{1b}[1;32m"@,
        TextStyle::YellowBold => "\u{1b}[1;33m"@,
        TextStyle::BlueBold => "\u{1b}[1;34m"@,
        TextStyle::BlueItalic => "\u{1b}[3;34m"@,
        TextStyle::CyanBold => "\u{1b}[1;36m"@,
        TextStyle::CyanItalic => "\u{1b}[3;36m"@,
        TextStyle::WhiteBold => "\u{1b}[1;37m"@,
        TextStyle::Dimmed => "\u{1b}[2m"@,
    }
}

/// The terminal sequence that turns every style off.
pub open spec fn turn_off() -> Seq<char> {
    seq!['\u{1b}', '[', '0', 'm']
}

/// `text` with `mark` after each `turn_off` that it holds.
pub open spec fn restored(text: Seq<char>, mark: Seq<char>) -> Seq<char>
    decreases text.len(),
{
    if text.len() < 4 {
        text
    } else if text.take(4) == turn_off() {
        turn_off() + mark + restored(text.skip(4), mark)
    } else {
        seq![text[0]] + restored(text.drop_first(), mark)
    }
}

/// What the `colored` crate may make of `text` when it is to be shown after `on`.
///
/// Whether it colors at all is decided by the environment and by a switch that any thread may
/// flip. Without color the text comes out as it is. With it, the text stands between `on` and
/// `turn_off`, and `on` is repeated where the text itself turns styles off. The switch is read more
/// than once for one text: if it is flipped to off in between, either `on` may be missing.
pub open spec fn painted(text: Seq<char>, on: Seq<char>, out: Seq<char>) -> bool {
    ||| out == text
    ||| exists|lead: bool, again: bool|
        #![auto]
        out == if_then(lead, on) + restored(text, if_then(again, on)) + turn_off()
}

/// `s` where `b` holds, nothing otherwise.
pub open spec fn if_then(b: bool, s: Seq<char>) -> Seq<char> {
    if b {
        s
    } else {
        seq![]
    }
}

/// `str::red`, shown through `ColoredString::to_string`: red text, or the text alone.
#[verifier::external_body]
fn red(text: &str) -> (out: String)
    ensures
        painted(text@, turn_on(TextStyle::Red), out@),
{
    text.red().to_string()
}

/// `str::red` and `bold`, shown through `ColoredString::to_string`.
#[verifier::external_body]
fn red_bold(text: &str) -> (out: String)
    ensures
        painted(text@, turn_on(TextStyle::RedBold), out@),
{
    text.red().bold().to_string()
}

/// `str::green`, shown through `ColoredString::to_string`.
#[verifier::external_body]
fn green(text: &str) -> (out: String)
    ensures
        painted(text@, turn_on(TextStyle::Green), out@),
{
    text.green().to_string()
}

/// `str::green` and `bold`, shown through `ColoredString::to_string`.
#[verifier::external_body]
fn green_bold(text: &str) -> (out: String)
    ensures
        painted(text@, turn_on(TextStyle::GreenBold), out@),
{
    text.green().bold().to_string()
}

/// `str::yellow` and `bold`, shown through `ColoredString::to_string`.
#[verifier::external_body]
fn yellow_bold(text: &str) -> (out: String)
    ensures
        painted(text@, turn_on(TextStyle::YellowBold), out@),
{
    text.yellow().bold().to_string()
}

/// `str::blue` and `bold`, shown through `ColoredString::to_string`.
#[verifier::external_body]
fn blue_bold(text: &str) -> (out: String)
    ensures
        painted(text@, turn_on(TextStyle::BlueBold), out@),
{
    text.blue().bold().to_string()
}

/// `str::blue` and `italic`, shown through `ColoredString::to_string`.
#[verifier::external_body]
fn blue_italic(text: &str) -> (out: String)
    ensures
        painted(text@, turn_on(TextStyle::BlueItalic), out@),
{
    text.blue().italic().to_string()
}

/// `str::cyan` and `bold`, shown through `ColoredString::to_string`.
#[verifier::external_body]
fn cyan_bold(text: &str) -> (out: String)
    ensures
        painted(text@, turn_on(TextStyle::CyanBold), out@),
{
    text.cyan().bold().to_string()
}

/// `str::cyan` and `italic`, shown through `ColoredString::to_string`.
#[verifier::external_body]
fn cyan_italic(text: &str) -> (out: String)
    ensures
        painted(text@, turn_on(TextStyle::CyanItalic), out@),
{
    text.cyan().italic().to_string()
}

/// `str::white` and `bold`, shown through `ColoredString::to_string`.
#[verifier::external_body]
fn white_bold(text: &str) -> (out: String)
    ensures
        painted(text@, turn_on(TextStyle::WhiteBold), out@),
{
    text.white().bold().to_string()
}

/// `str::dimmed`, shown through `ColoredString::to_string`.
#[verifier::external_body]
fn dimmed(text: &str) -> (out: String)
    ensures
        painted(text@, turn_on(TextStyle::Dimmed), out@),
{
    text.dimmed().to_string()
}

/// What `text` may become when it is shown in `style`, with colors on or off.
pub open spec fn shown(text: Seq<char>, style: TextStyle, color: bool, out: Seq<char>) -> bool {
    if color && style != TextStyle::Plain {
        painted(text, turn_on(style), out)
    } else {
        out == text
    }
}

/// Whether `out` is what `colored` may return for `text` when it is asked for `style`.
pub closed spec fn is_paint_of(text: &str, style: TextStyle, out: String) -> bool {
    match style {
        TextStyle::Plain => out@ == text@,
        TextStyle::Red => call_ensures(red, (text,), out),
        TextStyle::RedBold => call_ensures(red_bold, (text,), out),
        TextStyle::Green => call_ensures(green, (text,), out),
        TextStyle::GreenBold => call_ensures(green_bold, (text,), out),
        TextStyle::YellowBold => call_ensures(yellow_bold, (text,), out),
        TextStyle::BlueBold => call_ensures(blue_bold, (text,), out),
        TextStyle::BlueItalic => call_ensures(blue_italic, (text,), out),
        TextStyle::CyanBold => call_ensures(cyan_bold, (text,), out),
        TextStyle::CyanItalic => call_ensures(cyan_italic, (text,), out),
        TextStyle::WhiteBold => call_ensures(white_bold, (text,), out),
        TextStyle::Dimmed => call_ensures(dimmed, (text,), out),
    }
}

/// Shows `text` in `style`, or as it is where `color` is off.
pub fn paint(text: &str, style: TextStyle, color: bool) -> (out: String)
    ensures
        shown(text@, style, color, out@),
        color ==> is_paint_of(text, style, out),
{
    if !color {
        return text.to_owned();
    }
    match style {
        TextStyle::Plain => text.to_owned(),
        TextStyle::Red => red(text),
        TextStyle::RedBold => red_bold(text),
        TextStyle::Green => green(text),
        TextStyle::GreenBold => green_bold(text),
        TextStyle::YellowBold => yellow_bold(text),
        TextStyle::BlueBold => blue_bold(text),
        TextStyle::BlueItalic => blue_italic(text),
        TextStyle::CyanBold => cyan_bold(text),
        TextStyle::CyanItalic => cyan_italic(text),
        TextStyle::WhiteBold => white_bold(text),
        TextStyle::Dimmed => dimmed(text),
    }
}

/// The word for a severity.
pub open spec fn severity_text(severity: Severity) -> Seq<char> {
    match severity {
        Severity::Error => "error"@,
        Severity::Warning => "warning"@,
        Severity::Note => "note"@,
        Severity::Help => "help"@,
    }
}

/// The word for a severity.
pub fn severity_word(severity: Severity) -> (r: &'static str)
    ensures
        r@ == severity_text(severity),
{
    match severity {
        Severity::Error => "error",
        Severity::Warning => "warning",
        Severity::Note => "note",
        Severity::Help => "help",
    }
}

/// The style in which a severity and what belongs to it are shown.
pub open spec fn style_of_severity(severity: Severity) -> TextStyle {
    match severity {
        Severity::Error => TextStyle::RedBold,
        Severity::Warning => TextStyle::YellowBold,
        Severity::Note => TextStyle::CyanBold,
        Severity::Help => TextStyle::GreenBold,
    }
}

/// The style in which a severity and what belongs to it are shown.
pub fn severity_style(severity: Severity) -> (r: TextStyle)
    ensures
        r == style_of_severity(severity),
{
    match severity {
        Severity::Error => TextStyle::RedBold,
        Severity::Warning => TextStyle::YellowBold,
        Severity::Note => TextStyle::CyanBold,
        Severity::Help => TextStyle::GreenBold,
    }
}

/// The style of a label: that of the severity where it is primary.
pub open spec fn style_of_label(severity: Severity, style: LabelStyle) -> TextStyle {
    match style {
        LabelStyle::Primary => style_of_severity(severity),
        LabelStyle::Secondary => TextStyle::BlueBold,
    }
}

/// The style of a label: that of the severity where it is primary.
pub fn label_style(severity: Severity, style: LabelStyle) -> (r: TextStyle)
    ensures
        r == style_of_label(severity, style),
{
    match style {
        LabelStyle::Primary => severity_style(severity),
        LabelStyle::Secondary => TextStyle::BlueBold,
    }
}

} // verus!
