//! Pretty printing utilities for debugger output.

use crate::output::StatusLabel;
use crate::text::{decimal, decimal_digits};
use crossterm::style::Stylize;
use vstd::prelude::*;
use vstd::string::*;

verus! {

/// What a message is about; it decides the color, or the label that stands
/// for the color.
#[derive(Debug, Clone, Copy, PartialEq, Eq)]
pub enum ColorKind {
    Info,
    Success,
    Warning,
    Error,
}

impl ColorKind {
    /// The label that stands for the color where colors are off.
    pub open spec fn label(self) -> StatusLabel {
        match self {
            ColorKind::Info => StatusLabel::Info,
            ColorKind::Success => StatusLabel::Pass,
            ColorKind::Warning => StatusLabel::Warning,
            ColorKind::Error => StatusLabel::Fail,
        }
    }

    /// The number of the color in the 256-color palette, in decimal: blue,
    /// green, yellow, red.
    pub open spec fn palette_index(self) -> Seq<char> {
        match self {
            ColorKind::Info => "12"@,
            ColorKind::Success => "10"@,
            ColorKind::Warning => "11"@,
            ColorKind::Error => "9"@,
        }
    }
}

/// A message behind the label of its kind: the form used where colors are
/// off.
pub open spec fn labelled(kind: ColorKind, message: Seq<char>) -> Seq<char> {
    kind.label().text() + " "@ + message
}

/// Whether `text` is `message` between the escape sequence that selects the
/// foreground color with the number `index` of the 256-color palette and
/// the one that restores the default foreground. Where the terminal
/// library has colors switched off (it consults `NO_COLOR`), either
/// sequence is written without its parameter.
pub open spec fn is_painted(index: Seq<char>, message: Seq<char>, text: Seq<char>) -> bool {
    let select = "\x1b[38;5;"@ + index + "m"@;
    let restore = "\x1b[39m"@;
    let bare = "\x1b[m"@;
    ||| text == select + message + restore
    ||| text == select + message + bare
    ||| text == bare + message + restore
    ||| text == bare + message + bare
}

/// Whether `text` is `message` in the color of `kind`.
pub open spec fn is_colored(kind: ColorKind, message: Seq<char>, text: Seq<char>) -> bool {
    is_painted(kind.palette_index(), message, text)
}

/// What is shown for a message of a kind where colors are on and the
/// terminal library wrote `painted` for it: `painted` as it is, or the
/// message behind its label where the library wrote nothing.
pub open spec fn shown_text(painted: Seq<char>, kind: ColorKind, message: Seq<char>) -> Seq<char> {
    if painted.len() == 0 {
        labelled(kind, message)
    } else {
        painted
    }
}

/// Whether `message` stands in `text` as it is, with some characters
/// before it and some behind it.
pub open spec fn message_within(message: Seq<char>, text: Seq<char>) -> bool {
    exists|before: Seq<char>, behind: Seq<char>| text == #[trigger] between(before, message, behind)
}

/// `message` between `before` and `behind`.
pub open spec fn between(before: Seq<char>, message: Seq<char>, behind: Seq<char>) -> Seq<char> {
    before + message + behind
}

/// A labelled message holds the message.
pub proof fn lemma_labelled_holds_message(kind: ColorKind, message: Seq<char>)
    ensures
        message_within(message, labelled(kind, message)),
{
    let before = kind.label().text() + " "@;
    assert(labelled(kind, message) =~= between(before, message, Seq::<char>::empty()));
}

/// A colored message holds the message.
pub proof fn lemma_colored_holds_message(kind: ColorKind, message: Seq<char>, text: Seq<char>)
    requires
        is_colored(kind, message, text),
    ensures
        message_within(message, text),
{
    let select = "\x1b[38;5;"@ + kind.palette_index() + "m"@;
    let restore = "\x1b[39m"@;
    let bare = "\x1b[m"@;
    if text == select + message + restore {
        assert(text == between(select, message, restore));
    } else if text == select + message + bare {
        assert(text == between(select, message, bare));
    } else if text == bare + message + restore {
        assert(text == between(bare, message, restore));
    } else {
        assert(text == between(bare, message, bare));
    }
}

/// The line that shows the budget: compute units and memory, each as
/// used, limit and share of the limit.
pub open spec fn budget_line(
    cpu: u64,
    cpu_limit: u64,
    cpu_percent: Seq<char>,
    mem: u64,
    mem_limit: u64,
    mem_percent: Seq<char>,
) -> Seq<char> {
    "CPU: "@ + decimal_digits(cpu as nat) + "/"@ + decimal_digits(cpu_limit as nat) + " ("@
        + cpu_percent + "%) | Memory: "@ + decimal_digits(mem as nat) + "/"@ + decimal_digits(
        mem_limit as nat,
    ) + " bytes ("@ + mem_percent + "%)"@
}

/// Whether `c` is white space: a character with the property `White_Space`
/// of the Unicode character database.
pub open spec fn is_white_space(c: char) -> bool {
    let n = c as u32;
    0x09 <= n <= 0x0d || n == 0x20 || n == 0x85 || n == 0xa0 || n == 0x1680 || 0x2000 <= n
        <= 0x200a || n == 0x2028 || n == 0x2029 || n == 0x202f || n == 0x205f || n == 0x3000
}

/// The string without the white space at its front.
pub open spec fn without_leading(text: Seq<char>) -> Seq<char>
    decreases text.len(),
{
    if text.len() > 0 && is_white_space(text[0]) {
        without_leading(text.drop_first())
    } else {
        text
    }
}

/// The string without the white space at its end.
pub open spec fn without_trailing(text: Seq<char>) -> Seq<char>
    decreases text.len(),
{
    if text.len() > 0 && is_white_space(text.last()) {
        without_trailing(text.drop_last())
    } else {
        text
    }
}

/// The string without its leading and trailing white space.
pub open spec fn trimmed(text: Seq<char>) -> Seq<char> {
    without_leading(without_trailing(text))
}

/// Whether the string holds nothing but white space.
pub open spec fn is_blank(text: Seq<char>) -> bool {
    forall|i: int| 0 <= i < text.len() ==> is_white_space(#[trigger] text[i])
}

/// Nothing is left of a string without its white space at the end exactly
/// where it holds nothing else; what is left does not end in white space.
proof fn lemma_without_trailing(text: Seq<char>)
    ensures
        without_trailing(text).len() == 0 <==> is_blank(text),
        without_trailing(text).len() > 0 ==> !is_white_space(without_trailing(text).last()),
        without_trailing(text).len() > 0 ==> !is_blank(without_trailing(text)),
    decreases text.len(),
{
    if text.len() > 0 && is_white_space(text.last()) {
        lemma_without_trailing(text.drop_last());
        if is_blank(text.drop_last()) {
            assert forall|i: int| 0 <= i < text.len() implies is_white_space(
                #[trigger] text[i],
            ) by {
                if i < text.len() - 1 {
                    assert(text[i] == text.drop_last()[i]);
                }
            }
        } else {
            let i = choose|i: int|
                0 <= i < text.drop_last().len() && !is_white_space(text.drop_last()[i]);
            assert(text[i] == text.drop_last()[i]);
        }
    } else if text.len() > 0 {
        assert(!is_white_space(text[text.len() - 1]));
    }
}

/// Nothing is left of a string without its white space at the front
/// exactly where it holds nothing else.
proof fn lemma_without_leading(text: Seq<char>)
    ensures
        without_leading(text).len() == 0 <==> is_blank(text),
    decreases text.len(),
{
    if text.len() > 0 && is_white_space(text[0]) {
        lemma_without_leading(text.drop_first());
        if is_blank(text.drop_first()) {
            assert forall|i: int| 0 <= i < text.len() implies is_white_space(
                #[trigger] text[i],
            ) by {
                if i > 0 {
                    assert(text[i] == text.drop_first()[i - 1]);
                }
            }
        } else {
            let i = choose|i: int|
                0 <= i < text.drop_first().len() && !is_white_space(text.drop_first()[i]);
            assert(text[i + 1] == text.drop_first()[i]);
        }
    } else if text.len() > 0 {
        assert(!is_white_space(text[0]));
    }
}

/// Nothing is left of a trimmed string exactly where the string holds
/// nothing but white space.
pub proof fn lemma_trimmed_blank(text: Seq<char>)
    ensures
        trimmed(text).len() == 0 <==> is_blank(text),
{
    lemma_without_trailing(text);
    lemma_without_leading(without_trailing(text));
}

/// Calls `str::trim`, which returns the slice of its argument without the
/// leading and trailing white space, where white space is what the
/// Unicode character database gives the property `White_Space`.
#[verifier::external_body]
fn trim(text: &str) -> (inner: &str)
    ensures
        inner@ == trimmed(text@),
{
    text.trim()
}

/// Formats `message` through `crossterm`'s `Stylize::blue`. The styled
/// content writes the sequence that sets the color, the message, and the
/// sequence that resets the foreground; whether the sequences carry their
/// color parameter depends on the process (`NO_COLOR`), so the contract
/// admits both. On a platform where the terminal library drives the
/// console by calls instead of escape sequences, and finds that the
/// console takes no sequences, it writes nothing at all: the text is then
/// empty.
#[verifier::external_body]
fn paint_blue(message: &str) -> (text: String)
    ensures
        is_painted("12"@, message@, text@) || text@.len() == 0,
{
    format!("{}", message.blue())
}

/// Formats `message` through `crossterm`'s `Stylize::green`; what it
/// writes is as for `paint_blue`, with the number of green.
#[verifier::external_body]
fn paint_green(message: &str) -> (text: String)
    ensures
        is_painted("10"@, message@, text@) || text@.len() == 0,
{
    format!("{}", message.green())
}

/// Formats `message` through `crossterm`'s `Stylize::yellow`; what it
/// writes is as for `paint_blue`, with the number of yellow.
#[verifier::external_body]
fn paint_yellow(message: &str) -> (text: String)
    ensures
        is_painted("11"@, message@, text@) || text@.len() == 0,
{
    format!("{}", message.yellow())
}

/// Formats `message` through `crossterm`'s `Stylize::red`; what it writes
/// is as for `paint_blue`, with the number of red.
#[verifier::external_body]
fn paint_red(message: &str) -> (text: String)
    ensures
        is_painted("9"@, message@, text@) || text@.len() == 0,
{
    format!("{}", message.red())
}

/// Formats a message of a kind behind the label of the kind.
pub fn label_message(message: &str, kind: ColorKind) -> (text: String)
    ensures
        text@ == labelled(kind, message@),
{
    let label = match kind {
        ColorKind::Info => StatusLabel::Info.as_str(),
        ColorKind::Success => StatusLabel::Pass.as_str(),
        ColorKind::Warning => StatusLabel::Warning.as_str(),
        ColorKind::Error => StatusLabel::Fail.as_str(),
    };
    let mut text = String::from_str(label);
    text.append(" ");
    text.append(message);
    text
}

/// What is shown for a message of a kind, given what the terminal library
/// wrote for it in color: that text as it is, or the message behind its
/// label where the library wrote nothing.
pub fn shown(painted: String, message: &str, kind: ColorKind) -> (text: String)
    ensures
        text@ == shown_text(painted@, kind, message@),
{
    if painted.as_str().is_empty() {
        label_message(message, kind)
    } else {
        painted
    }
}

/// Formats values and messages for display. Whether messages are colored is
/// a setting of the formatter, on unless configured otherwise.
#[derive(Debug, Clone, Copy, PartialEq, Eq)]
pub struct Formatter {
    colors: bool,
}

impl Formatter {
    /// Whether messages are colored.
    pub closed spec fn colors_enabled(&self) -> bool {
        self.colors
    }

    /// What `apply_color` may return for a message of a kind: behind its
    /// label where colors are off; colored where they are on, or behind
    /// its label all the same where the terminal library writes nothing
    /// for the colored text. Either way the message is in the text.
    pub open spec fn is_message(&self, kind: ColorKind, message: Seq<char>, text: Seq<char>) -> bool {
        if self.colors_enabled() {
            is_colored(kind, message, text) || text == labelled(kind, message)
        } else {
            text == labelled(kind, message)
        }
    }

    /// A formatter with colors on.
    pub fn new() -> (formatter: Self)
        ensures
            formatter.colors_enabled(),
    {
        Formatter { colors: true }
    }

    /// Whether messages are colored.
    pub fn colors(&self) -> (enabled: bool)
        ensures
            enabled == self.colors_enabled(),
    {
        self.colors
    }

    /// Formats a value for display: the value as it is.
    pub fn format_value(value: &str) -> (text: String)
        ensures
            text@ == value@,
    {
        String::from_str(value)
    }

    /// Formats a storage key-value pair.
    pub fn format_storage_entry(key: &str, value: &str) -> (text: String)
        ensures
            text@ == key@ + " = "@ + value@,
    {
        let mut text = String::from_str(key);
        text.append(" = ");
        text.append(value);
        text
    }

    /// Formats a function call: the name, then the arguments in
    /// parentheses, which are empty where there are no arguments.
    pub fn format_function_call(name: &str, args: Option<&str>) -> (text: String)
        ensures
            text@ == name@ + "("@ + (match args {
                Some(a) => a@,
                None => Seq::<char>::empty(),
            }) + ")"@,
    {
        let mut text = String::from_str(name);
        text.append("(");
        if let Some(a) = args {
            text.append(a);
        }
        text.append(")");
        assert(text@ =~= name@ + "("@ + (match args {
            Some(a) => a@,
            None => Seq::<char>::empty(),
        }) + ")"@);
        text
    }

    /// Formats budget information: the compute units and the memory used,
    /// each with its limit and with the share of the limit in percent. The
    /// caller supplies the shares as text, rounded as it sees fit.
    pub fn format_budget(
        cpu: u64,
        cpu_limit: u64,
        cpu_percent: &str,
        mem: u64,
        mem_limit: u64,
        mem_percent: &str,
    ) -> (text: String)
        ensures
            text@ == budget_line(cpu, cpu_limit, cpu_percent@, mem, mem_limit, mem_percent@),
    {
        let mut text = String::from_str("CPU: ");
        text.append(decimal(cpu).as_str());
        text.append("/");
        text.append(decimal(cpu_limit).as_str());
        text.append(" (");
        text.append(cpu_percent);
        text.append("%) | Memory: ");
        text.append(decimal(mem).as_str());
        text.append("/");
        text.append(decimal(mem_limit).as_str());
        text.append(" bytes (");
        text.append(mem_percent);
        text.append("%)");
        text
    }

    /// Formats an informational message: blue where colors are on, else
    /// behind the label `[INFO]`.
    pub fn info(&self, message: &str) -> (text: String)
        ensures
            self.is_message(ColorKind::Info, message@, text@),
            message_within(message@, text@),
    {
        self.apply_color(message, ColorKind::Info)
    }

    /// Formats a success message: green where colors are on, else behind
    /// the label `[PASS]`.
    pub fn success(&self, message: &str) -> (text: String)
        ensures
            self.is_message(ColorKind::Success, message@, text@),
            message_within(message@, text@),
    {
        self.apply_color(message, ColorKind::Success)
    }

    /// Formats a warning message: yellow where colors are on, else behind
    /// the label `[WARN]`.
    pub fn warning(&self, message: &str) -> (text: String)
        ensures
            self.is_message(ColorKind::Warning, message@, text@),
            message_within(message@, text@),
    {
        self.apply_color(message, ColorKind::Warning)
    }

    /// Formats an error message: red where colors are on, else behind the
    /// label `[FAIL]`.
    pub fn error(&self, message: &str) -> (text: String)
        ensures
            self.is_message(ColorKind::Error, message@, text@),
            message_within(message@, text@),
    {
        self.apply_color(message, ColorKind::Error)
    }

    /// Configures whether messages are colored.
    pub fn configure_colors(&mut self, enable: bool)
        ensures
            final(self).colors_enabled() == enable,
    {
        self.colors = enable;
    }

    /// Configures colors from the `NO_COLOR` variable of the environment,
    /// whose value the caller hands over, `None` where it is not set:
    /// colors are off exactly where the variable is set and holds more
    /// than white space.
    pub fn configure_colors_from_env(&mut self, no_color: Option<&str>)
        ensures
            final(self).colors_enabled() == !(no_color matches Some(value) && !is_blank(
                value@,
            )),
    {
        let no_color = match no_color {
            Some(value) => {
                proof {
                    lemma_trimmed_blank(value@);
                }
                !trim(value).is_empty()
            },
            None => false,
        };
        self.configure_colors(!no_color);
    }

    /// Formats a message of a kind: behind its label where colors are
    /// off; else in blue, green, yellow or red for information, success,
    /// a warning or an error, as `shown` gives it.
    pub fn apply_color(&self, message: &str, kind: ColorKind) -> (text: String)
        ensures
            self.is_message(kind, message@, text@),
            message_within(message@, text@),
    {
        proof {
            lemma_labelled_holds_message(kind, message@);
        }
        if !self.colors {
            return label_message(message, kind);
        }
        let painted = match kind {
            ColorKind::Info => paint_blue(message),
            ColorKind::Success => paint_green(message),
            ColorKind::Warning => paint_yellow(message),
            ColorKind::Error => paint_red(message),
        };
        proof {
            if painted@.len() != 0 {
                lemma_colored_holds_message(kind, message@, painted@);
            }
        }
        shown(painted, message, kind)
    }
}

impl Default for Formatter {
    fn default() -> (formatter: Self)
        ensures
            formatter.colors_enabled(),
    {
        Self::new()
    }
}

} // verus!
