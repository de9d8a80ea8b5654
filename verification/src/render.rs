//! What an analysis hands to its consumer: the hex text of instruction
//! bytes, and the renderings that the options ask for.

use vstd::prelude::*;
use vstd::string::StringExecFns;
use crate::analyze::AnalysisResult;
use crate::configuration::OutputConfig;
use crate::disasm::Xori;

verus! {

/// The upper-case hex digit of `n`.
pub open spec fn hex_char(n: int) -> char {
    if n == 0 {
        '0'
    } else if n == 1 {
        '1'
    } else if n == 2 {
        '2'
    } else if n == 3 {
        '3'
    } else if n == 4 {
        '4'
    } else if n == 5 {
        '5'
    } else if n == 6 {
        '6'
    } else if n == 7 {
        '7'
    } else if n == 8 {
        '8'
    } else if n == 9 {
        '9'
    } else if n == 10 {
        'A'
    } else if n == 11 {
        'B'
    } else if n == 12 {
        'C'
    } else if n == 13 {
        'D'
    } else if n == 14 {
        'E'
    } else {
        'F'
    }
}

/// A byte as two upper-case hex digits and a space.
pub open spec fn spec_hex_byte(b: u8) -> Seq<char> {
    seq![hex_char(b as int / 16), hex_char(b as int % 16), ' ']
}

/// Bytes as hex text: each byte as two upper-case digits and a space.
pub open spec fn spec_hex(bytes: Seq<u8>) -> Seq<char>
    decreases bytes.len(),
{
    if bytes.len() == 0 {
        Seq::<char>::empty()
    } else {
        spec_hex(bytes.drop_last()) + spec_hex_byte(bytes.last())
    }
}

fn hex_digit(n: u8) -> (s: &'static str)
    requires
        n < 16,
    ensures
        s@ == seq![hex_char(n as int)],
{
    proof {
        reveal_strlit("0");
        reveal_strlit("1");
        reveal_strlit("2");
        reveal_strlit("3");
        reveal_strlit("4");
        reveal_strlit("5");
        reveal_strlit("6");
        reveal_strlit("7");
        reveal_strlit("8");
        reveal_strlit("9");
        reveal_strlit("A");
        reveal_strlit("B");
        reveal_strlit("C");
        reveal_strlit("D");
        reveal_strlit("E");
        reveal_strlit("F");
    }
    let s = if n == 0 {
        "0"
    } else if n == 1 {
        "1"
    } else if n == 2 {
        "2"
    } else if n == 3 {
        "3"
    } else if n == 4 {
        "4"
    } else if n == 5 {
        "5"
    } else if n == 6 {
        "6"
    } else if n == 7 {
        "7"
    } else if n == 8 {
        "8"
    } else if n == 9 {
        "9"
    } else if n == 10 {
        "A"
    } else if n == 11 {
        "B"
    } else if n == 12 {
        "C"
    } else if n == 13 {
        "D"
    } else if n == 14 {
        "E"
    } else {
        "F"
    };
    assert(s@ =~= seq![hex_char(n as int)]);
    s
}

/// The first `len` bytes of `arr` as hex text: each byte as two upper-case
/// digits and a space.
pub fn hex_array(arr: &[u8; 16], len: usize) -> (s: String)
    requires
        len <= 16,
    ensures
        s@ == spec_hex(arr@.take(len as int)),
{
    let mut s = String::new();
    let mut i: usize = 0;
    assert(arr@.take(0) =~= Seq::<u8>::empty());
    while i < len
        invariant
            i <= len,
            len <= 16,
            s@ == spec_hex(arr@.take(i as int)),
        decreases len - i,
    {
        let byte = arr[i];
        assert(arr@.take(i + 1).drop_last() =~= arr@.take(i as int));
        assert(arr@.take(i + 1).last() == byte);
        let ghost before = s@;
        proof {
            reveal_strlit(" ");
        }
        s.append(hex_digit(byte / 16));
        s.append(hex_digit(byte % 16));
        s.append(" ");
        assert(s@ =~= before + spec_hex_byte(byte));
        i += 1;
    }
    s
}

/// What `analyze` hands to its consumer: what was analysed, and the
/// renderings that the options ask for.
#[derive(Debug, Clone, PartialEq, Eq)]
pub struct Analysis {
    pub xi: Xori,
    pub base: u64,
    pub disasm: String,
    pub functions: String,
    pub header: String,
}

impl Analysis {
    /// Puts the renderings of `result` together: each rendering stands
    /// where the options ask for it, and the empty text where they do not.
    pub fn assemble(
        result: &AnalysisResult,
        output: &OutputConfig,
        disasm: String,
        functions: String,
        header: String,
    ) -> (analysis: Analysis)
        ensures
            analysis.xi == result.xi,
            analysis.base == result.base,
            analysis.disasm@ == (if output.disasm_json {
                disasm@
            } else {
                Seq::<char>::empty()
            }),
            analysis.functions@ == (if output.functions {
                functions@
            } else {
                Seq::<char>::empty()
            }),
            analysis.header@ == (if output.imports {
                header@
            } else {
                Seq::<char>::empty()
            }),
    {
        Analysis {
            xi: result.xi,
            base: result.base,
            disasm: if output.disasm_json {
                disasm
            } else {
                String::new()
            },
            functions: if output.functions {
                functions
            } else {
                String::new()
            },
            header: if output.imports {
                header
            } else {
                String::new()
            },
        }
    }
}

} // verus!
