//! Execution modes and their canonical text.

use vstd::prelude::*;
use crate::error::Error;
use crate::text::{chars_of, same_chars};

verus! {

/// How a benchmark is executed: compiled ahead of time or interpreted, on
/// several threads or on one.
#[derive(Debug, Default, Clone, Copy, PartialEq, Eq, Structural)]
pub struct Mode {
    pub compiled: bool,
    pub multi: bool,
}

impl Mode {
    /// The canonical text of a mode: `comp` or `intr`, a hyphen, `multi` or
    /// `singl`.
    pub open spec fn encoding(self) -> Seq<char> {
        (if self.compiled { "comp"@ } else { "intr"@ }) + "-"@ + (if self.multi { "multi"@ } else { "singl"@ })
    }

    /// The mode that a text encodes, if it encodes one.
    pub open spec fn decode(s: Seq<char>) -> Option<Mode> {
        if s == (Mode { compiled: false, multi: false }).encoding() {
            Some(Mode { compiled: false, multi: false })
        } else if s == (Mode { compiled: false, multi: true }).encoding() {
            Some(Mode { compiled: false, multi: true })
        } else if s == (Mode { compiled: true, multi: false }).encoding() {
            Some(Mode { compiled: true, multi: false })
        } else if s == (Mode { compiled: true, multi: true }).encoding() {
            Some(Mode { compiled: true, multi: true })
        } else {
            None
        }
    }

    /// The four modes, in the order in which a sweep runs them by default.
    pub open spec fn all() -> Seq<Mode> {
        seq![
            Mode { compiled: false, multi: false },
            Mode { compiled: false, multi: true },
            Mode { compiled: true, multi: false },
            Mode { compiled: true, multi: true },
        ]
    }

    /// Every mode: interpreted before compiled, single-threaded before
    /// multi-threaded.
    pub fn value_variants() -> (modes: Vec<Mode>)
        ensures
            modes@ == Mode::all(),
    {
        let mut modes: Vec<Mode> = Vec::new();
        modes.push(Mode { compiled: false, multi: false });
        modes.push(Mode { compiled: false, multi: true });
        modes.push(Mode { compiled: true, multi: false });
        modes.push(Mode { compiled: true, multi: true });
        modes
    }

    /// The canonical text of this mode.
    pub fn name(&self) -> (text: &'static str)
        ensures
            text@ == self.encoding(),
    {
        proof {
            lemma_encodings();
        }
        if self.compiled {
            if self.multi {
                "comp-multi"
            } else {
                "comp-singl"
            }
        } else {
            if self.multi {
                "intr-multi"
            } else {
                "intr-singl"
            }
        }
    }

    /// The canonical text of this mode, as a string of its own.
    pub fn to_string(&self) -> (text: String)
        ensures
            text@ == self.encoding(),
    {
        self.name().to_owned()
    }

    /// Reads a mode from its canonical text. Any other text is refused.
    pub fn from_str(s: &str) -> (res: Result<Mode, Error>)
        ensures
            res == match Mode::decode(s@) {
                Some(m) => Ok::<Mode, Error>(m),
                None => Err(Error::InvalidModeEncoding),
            },
    {
        proof {
            lemma_encodings();
        }
        let given = chars_of(s);
        if same_chars(&given, &chars_of("intr-singl")) {
            Ok(Mode { compiled: false, multi: false })
        } else if same_chars(&given, &chars_of("intr-multi")) {
            Ok(Mode { compiled: false, multi: true })
        } else if same_chars(&given, &chars_of("comp-singl")) {
            Ok(Mode { compiled: true, multi: false })
        } else if same_chars(&given, &chars_of("comp-multi")) {
            Ok(Mode { compiled: true, multi: true })
        } else {
            Err(Error::InvalidModeEncoding)
        }
    }
}

/// The four encodings, written out.
pub proof fn lemma_encodings()
    ensures
        (Mode { compiled: false, multi: false }).encoding() == "intr-singl"@,
        (Mode { compiled: false, multi: true }).encoding() == "intr-multi"@,
        (Mode { compiled: true, multi: false }).encoding() == "comp-singl"@,
        (Mode { compiled: true, multi: true }).encoding() == "comp-multi"@,
        "intr-singl"@.len() == 10,
        "intr-singl"@[0] == 'i',
        "intr-singl"@[5] == 's',
        "intr-multi"@.len() == 10,
        "intr-multi"@[0] == 'i',
        "intr-multi"@[5] == 'm',
        "comp-singl"@.len() == 10,
        "comp-singl"@[0] == 'c',
        "comp-singl"@[5] == 's',
        "comp-multi"@.len() == 10,
        "comp-multi"@[0] == 'c',
        "comp-multi"@[5] == 'm',
{
    reveal_strlit("comp");
    reveal_strlit("intr");
    reveal_strlit("-");
    reveal_strlit("multi");
    reveal_strlit("singl");
    reveal_strlit("intr-singl");
    reveal_strlit("intr-multi");
    reveal_strlit("comp-singl");
    reveal_strlit("comp-multi");
    assert("intr"@ + "-"@ + "singl"@ =~= "intr-singl"@);
    assert("intr"@ + "-"@ + "multi"@ =~= "intr-multi"@);
    assert("comp"@ + "-"@ + "singl"@ =~= "comp-singl"@);
    assert("comp"@ + "-"@ + "multi"@ =~= "comp-multi"@);
}

/// The encoding of a mode holds letters and a hyphen only.
pub proof fn lemma_encoding_is_plain(m: Mode)
    ensures
        m.encoding().len() == 10,
        forall|i: int|
            0 <= i < 10 ==> {
                let c = #[trigger] m.encoding()[i];
                c == '-' || (0x61 <= c as u32 <= 0x7a)
            },
{
    lemma_encodings();
    reveal_strlit("intr-singl");
    reveal_strlit("intr-multi");
    reveal_strlit("comp-singl");
    reveal_strlit("comp-multi");
}

/// Encoding a mode and decoding the text gives the mode back.
pub proof fn lemma_mode_round_trip(m: Mode)
    ensures
        Mode::decode(m.encoding()) == Some(m),
{
    lemma_encodings();
}

/// Whatever decodes to a mode is that mode's encoding.
pub proof fn lemma_decode_inverts_encoding(s: Seq<char>, m: Mode)
    requires
        Mode::decode(s) == Some(m),
    ensures
        s == m.encoding(),
{
}

} // verus!
