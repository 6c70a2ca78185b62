//! Command-line level values: the parsed flags and how they fold
//! into the search filters.

use vstd::prelude::*;
use crate::config::Config;
use crate::text::decimal_digits;
use crate::text::usize_to_decimal;

verus! {

/// The game modes the catalog can filter on.
#[derive(Clone, Copy, PartialEq, Eq, Structural, Debug)]
pub enum Mode {
    Standard,
    Taiko,
    Catch,
    Mania,
    Any,
}

impl Mode {
    /// The numeric filter code each mode stands for.
    pub open spec fn spec_code(self) -> nat {
        match self {
            Mode::Standard => 0,
            Mode::Taiko => 1,
            Mode::Catch => 2,
            Mode::Mania => 3,
            Mode::Any => 4,
        }
    }

    pub fn code(self) -> (c: u8)
        ensures
            c as nat == self.spec_code(),
            c <= 4,
    {
        match self {
            Mode::Standard => 0,
            Mode::Taiko => 1,
            Mode::Catch => 2,
            Mode::Mania => 3,
            Mode::Any => 4,
        }
    }

    /// Which mode a command-line code names; anything unrecognized
    /// means no mode restriction.
    pub fn from_str(s: &str) -> (m: Mode)
        ensures
            s@ == "0"@ ==> m == Mode::Standard,
            s@ == "1"@ ==> m == Mode::Taiko,
            s@ == "2"@ ==> m == Mode::Catch,
            s@ == "3"@ ==> m == Mode::Mania,
            s@ != "0"@ && s@ != "1"@ && s@ != "2"@ && s@ != "3"@ ==> m == Mode::Any,
    {
        proof {
            reveal_strlit("0");
            reveal_strlit("1");
            reveal_strlit("2");
            reveal_strlit("3");
        }
        let n = s.unicode_len();
        if n != 1 {
            return Mode::Any;
        }
        let c = s.get_char(0);
        let m = match c {
            '0' => Mode::Standard,
            '1' => Mode::Taiko,
            '2' => Mode::Catch,
            '3' => Mode::Mania,
            _ => Mode::Any,
        };
        proof {
            assert(s@.len() == 1 && s@[0] == c);
            assert(s@ == "0"@ ==> c == '0');
            assert(s@ == "1"@ ==> c == '1');
            assert(s@ == "2"@ ==> c == '2');
            assert(s@ == "3"@ ==> c == '3');
            if c == '0' {
                assert(s@ =~= "0"@);
            } else if c == '1' {
                assert(s@ =~= "1"@);
            } else if c == '2' {
                assert(s@ =~= "2"@);
            } else if c == '3' {
                assert(s@ =~= "3"@);
            }
        }
        m
    }
}

/// Command-line arguments after flag parsing.
pub struct Cli {
    pub query: String,
    pub mode: Option<Mode>,
    pub recommended_difficulty: bool,
}

/// Folds the parsed flags into the search filters and hands back the
/// free-text query: a chosen mode sets filter `m` to its code, and
/// the recommended-difficulty flag sets filter `c` to `recommended`.
pub fn parse_args(cli: &Cli, config: &mut Config) -> (q: String)
    requires
        old(config).wf(),
    ensures
        final(config).wf(),
        q@ == cli.query@,
        final(config).cookie == old(config).cookie,
        final(config).download_directory == old(config).download_directory,
        (match cli.mode {
            Some(m) => final(config).spec_filter("m"@) == Some(decimal_digits(m.spec_code())),
            None => final(config).spec_filter("m"@) == old(config).spec_filter("m"@),
        }),
        (if cli.recommended_difficulty {
            final(config).spec_filter("c"@) == Some("recommended"@)
        } else {
            final(config).spec_filter("c"@) == old(config).spec_filter("c"@)
        }),
        forall|k2: Seq<char>|
            k2 != "m"@ && k2 != "c"@ ==> final(config).spec_filter(k2) == old(config).spec_filter(
                k2,
            ),
{
    proof {
        reveal_strlit("m");
        reveal_strlit("c");
        assert("m"@.len() == 1 && "c"@.len() == 1);
        assert("m"@[0] == 'm' && "c"@[0] == 'c');
        assert("m"@ != "c"@);
    }
    match cli.mode {
        Some(mode) => {
            let code = mode.code();
            let code_str = usize_to_decimal(code as usize);
            config.set_filter("m", code_str.as_str());
        },
        None => {},
    }
    if cli.recommended_difficulty {
        config.set_filter("c", "recommended");
    }
    cli.query.clone()
}

} // verus!
