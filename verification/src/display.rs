use vstd::prelude::*;

verus! {

/// The error type that the displays' constructors report (hound's error).
#[verifier::external_type_specification]
#[verifier::external_body]
pub struct ExHoundError(hound::Error);

/// A display that prints the band levels as text.
pub struct TerminalDisplay {}

impl TerminalDisplay {
    /// Creates the text display; this never fails.
    pub fn new() -> (r: Result<TerminalDisplay, hound::Error>)
        ensures
            r is Ok,
    {
        Ok(TerminalDisplay {})
    }
}

/// A display that draws one bar per band on the terminal.
pub struct TerminalBars {}

impl TerminalBars {
    /// Creates the bar display; this never fails. Clearing the terminal
    /// before the first frame is the caller's output to make.
    pub fn new() -> (r: Result<TerminalBars, hound::Error>)
        ensures
            r is Ok,
    {
        Ok(TerminalBars {})
    }
}

/// The displays the program can drive.
#[derive(PartialEq, Eq, Structural, Clone, Copy, Debug)]
pub enum DisplayKind {
    /// Band levels as text.
    Terminal,
    /// One bar per band on the terminal.
    Bars,
    /// Bars on an SSD1306 OLED screen.
    Oled,
}

/// The display that a command-line word names, if any.
pub open spec fn spec_display_kind(arg: Option<Seq<char>>) -> Option<DisplayKind> {
    match arg {
        Some(a) => if a == "terminal"@ {
            Some(DisplayKind::Terminal)
        } else if a == "bars"@ {
            Some(DisplayKind::Bars)
        } else if a == "oled"@ {
            Some(DisplayKind::Oled)
        } else {
            None
        },
        None => None,
    }
}

/// Only the exact words select a display: a word selects the text display
/// if and only if it is `terminal`, the bar display if and only if it is
/// `bars`, the OLED display if and only if it is `oled`; every other word,
/// and no word, selects none.
pub proof fn lemma_display_kind_exact(a: Seq<char>)
    ensures
        spec_display_kind(Some(a)) == Some(DisplayKind::Terminal) <==> a == "terminal"@,
        spec_display_kind(Some(a)) == Some(DisplayKind::Bars) <==> a == "bars"@,
        spec_display_kind(Some(a)) == Some(DisplayKind::Oled) <==> a == "oled"@,
        spec_display_kind(Some(a)) is None <==> (a != "terminal"@ && a != "bars"@ && a != "oled"@),
        spec_display_kind(None) is None,
{
    reveal_strlit("terminal");
    reveal_strlit("bars");
    reveal_strlit("oled");
    assert("bars"@.len() != "terminal"@.len());
    assert("oled"@.len() != "terminal"@.len());
    assert("oled"@[0] != "bars"@[0]);
}

/// Whether two strings hold the same characters.
fn same_text(a: &str, b: &str) -> (r: bool)
    ensures
        r == (a@ == b@),
{
    let n = a.unicode_len();
    if n != b.unicode_len() {
        return false;
    }
    let mut i: usize = 0;
    while i < n
        invariant
            n == a@.len(),
            n == b@.len(),
            i <= n,
            forall|k: int| 0 <= k < i ==> a@[k] == b@[k],
        decreases n - i,
    {
        if a.get_char(i) != b.get_char(i) {
            return false;
        }
        i = i + 1;
    }
    assert(a@ =~= b@);
    true
}

/// Picks the display from the program's first argument: `terminal`, `bars`
/// or `oled`; anything else, or no argument, selects none.
pub fn parse_display_kind(arg: Option<&str>) -> (k: Option<DisplayKind>)
    ensures
        k == spec_display_kind(
            match arg {
                Some(a) => Some(a@),
                None => None,
            },
        ),
{
    match arg {
        Some(a) => {
            if same_text(a, "terminal") {
                Some(DisplayKind::Terminal)
            } else if same_text(a, "bars") {
                Some(DisplayKind::Bars)
            } else if same_text(a, "oled") {
                Some(DisplayKind::Oled)
            } else {
                None
            }
        },
        None => None,
    }
}

} // verus!
