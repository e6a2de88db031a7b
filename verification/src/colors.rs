//! Color output: text wrapped in the ANSI codes owo-colors writes, or left
//! plain when colors are off. Whether they are on is a setting of the
//! program, handed to each call.

use vstd::prelude::*;
use owo_colors::OwoColorize;

verus! {

/// The colors and styles wowctl prints with.
#[derive(Debug, Clone, Copy, PartialEq, Eq, Structural)]
pub enum Paint {
    Cyan,
    Green,
    Red,
    Yellow,
    Blue,
    Dimmed,
    Bold,
}

/// The code that starts a paint.
pub open spec fn ansi_open(p: Paint) -> Seq<char> {
    match p {
        Paint::Red => "\x1b[31m"@,
        Paint::Green => "\x1b[32m"@,
        Paint::Yellow => "\x1b[33m"@,
        Paint::Blue => "\x1b[34m"@,
        Paint::Cyan => "\x1b[36m"@,
        Paint::Bold => "\x1b[1m"@,
        Paint::Dimmed => "\x1b[2m"@,
    }
}

/// The code that ends it: the default foreground for colors, a full reset
/// for styles.
pub open spec fn ansi_close(p: Paint) -> Seq<char> {
    match p {
        Paint::Bold | Paint::Dimmed => "\x1b[0m"@,
        _ => "\x1b[39m"@,
    }
}

/// `text` as printed: wrapped in the paint's codes when colors are on.
pub open spec fn painted(text: Seq<char>, p: Paint, enabled: bool) -> Seq<char> {
    if enabled {
        ansi_open(p) + text + ansi_close(p)
    } else {
        text
    }
}

/// `OwoColorize::cyan`, displayed: owo-colors writes `ESC[36m`, the text,
/// then `ESC[39m`.
#[verifier::external_body]
fn owo_cyan(s: &str) -> (r: String)
    ensures
        r@ == ansi_open(Paint::Cyan) + s@ + ansi_close(Paint::Cyan),
{
    format!("{}", s.cyan())
}

/// `OwoColorize::green`, displayed: `ESC[32m`, the text, `ESC[39m`.
#[verifier::external_body]
fn owo_green(s: &str) -> (r: String)
    ensures
        r@ == ansi_open(Paint::Green) + s@ + ansi_close(Paint::Green),
{
    format!("{}", s.green())
}

/// `OwoColorize::red`, displayed: `ESC[31m`, the text, `ESC[39m`.
#[verifier::external_body]
fn owo_red(s: &str) -> (r: String)
    ensures
        r@ == ansi_open(Paint::Red) + s@ + ansi_close(Paint::Red),
{
    format!("{}", s.red())
}

/// `OwoColorize::yellow`, displayed: `ESC[33m`, the text, `ESC[39m`.
#[verifier::external_body]
fn owo_yellow(s: &str) -> (r: String)
    ensures
        r@ == ansi_open(Paint::Yellow) + s@ + ansi_close(Paint::Yellow),
{
    format!("{}", s.yellow())
}

/// `OwoColorize::blue`, displayed: `ESC[34m`, the text, `ESC[39m`.
#[verifier::external_body]
fn owo_blue(s: &str) -> (r: String)
    ensures
        r@ == ansi_open(Paint::Blue) + s@ + ansi_close(Paint::Blue),
{
    format!("{}", s.blue())
}

/// `OwoColorize::dimmed`, displayed: `ESC[2m`, the text, `ESC[0m`.
#[verifier::external_body]
fn owo_dimmed(s: &str) -> (r: String)
    ensures
        r@ == ansi_open(Paint::Dimmed) + s@ + ansi_close(Paint::Dimmed),
{
    format!("{}", s.dimmed())
}

/// `OwoColorize::bold`, displayed: `ESC[1m`, the text, `ESC[0m`.
#[verifier::external_body]
fn owo_bold(s: &str) -> (r: String)
    ensures
        r@ == ansi_open(Paint::Bold) + s@ + ansi_close(Paint::Bold),
{
    format!("{}", s.bold())
}

/// `text` in the paint `p` when `enabled`, else unchanged.
pub fn paint(text: &str, p: Paint, enabled: bool) -> (r: String)
    ensures
        r@ == painted(text@, p, enabled),
{
    if !enabled {
        return text.to_owned();
    }
    match p {
        Paint::Cyan => owo_cyan(text),
        Paint::Green => owo_green(text),
        Paint::Red => owo_red(text),
        Paint::Yellow => owo_yellow(text),
        Paint::Blue => owo_blue(text),
        Paint::Dimmed => owo_dimmed(text),
        Paint::Bold => owo_bold(text),
    }
}

/// Conditional coloring of text.
pub trait ColorExt {
    fn color_cyan(&self, enabled: bool) -> String;

    fn color_green(&self, enabled: bool) -> String;

    fn color_red(&self, enabled: bool) -> String;

    fn color_yellow(&self, enabled: bool) -> String;

    fn color_blue(&self, enabled: bool) -> String;

    fn color_dimmed(&self, enabled: bool) -> String;

    fn color_bold(&self, enabled: bool) -> String;
}

impl ColorExt for str {
    fn color_cyan(&self, enabled: bool) -> (r: String)
        ensures
            r@ == painted(self@, Paint::Cyan, enabled),
    {
        paint(self, Paint::Cyan, enabled)
    }

    fn color_green(&self, enabled: bool) -> (r: String)
        ensures
            r@ == painted(self@, Paint::Green, enabled),
    {
        paint(self, Paint::Green, enabled)
    }

    fn color_red(&self, enabled: bool) -> (r: String)
        ensures
            r@ == painted(self@, Paint::Red, enabled),
    {
        paint(self, Paint::Red, enabled)
    }

    fn color_yellow(&self, enabled: bool) -> (r: String)
        ensures
            r@ == painted(self@, Paint::Yellow, enabled),
    {
        paint(self, Paint::Yellow, enabled)
    }

    fn color_blue(&self, enabled: bool) -> (r: String)
        ensures
            r@ == painted(self@, Paint::Blue, enabled),
    {
        paint(self, Paint::Blue, enabled)
    }

    fn color_dimmed(&self, enabled: bool) -> (r: String)
        ensures
            r@ == painted(self@, Paint::Dimmed, enabled),
    {
        paint(self, Paint::Dimmed, enabled)
    }

    fn color_bold(&self, enabled: bool) -> (r: String)
        ensures
            r@ == painted(self@, Paint::Bold, enabled),
    {
        paint(self, Paint::Bold, enabled)
    }
}

} // verus!
