//! Which log messages the server writes: the categories selected by `BPFTRACE_LS_LOG_MASK` and
//! the verbosity selected by `BPFTRACE_LS_LOG_VERBOSE`.
use vstd::prelude::*;

use crate::text::{
    parse_unsigned, spec_parse_unsigned, spec_split, spec_to_uppercase, spec_trim, split_ranges,
    str_chars, string_from_chars, to_uppercase, trim_range,
};
use vstd::string::StringExecFns;

verus! {

broadcast use vstd::string::group_string_axioms;

pub const PROTO: u32 = 1;
pub const DIAGN: u32 = 2;
pub const COMPL: u32 = 4;
pub const NOTIF: u32 = 8;
pub const HOVER: u32 = 16;
pub const BTFRD: u32 = 32;
pub const PARSE: u32 = 64;
pub const DEFIN: u32 = 128;

/// The log settings: which categories are written, and whether verbose messages are.
#[derive(Debug, Clone, Copy)]
pub struct Logger {
    pub mask: u32,
    pub verbose_debug: u32,
}

impl Logger {
    /// Settings with categories `mask` and verbosity `verbose_debug`.
    pub fn new(mask: u32, verbose_debug: u32) -> (r: Logger)
        ensures
            r.mask == mask,
            r.verbose_debug == verbose_debug,
    {
        Logger { mask, verbose_debug }
    }

    /// Whether a message of the categories `this_mask` is written.
    pub fn accepts(&self, this_mask: u32) -> (r: bool)
        ensures
            r == (self.mask & this_mask != 0),
    {
        (self.mask & this_mask) != 0
    }
}

/// Whether verbose messages are written; false while there are no log settings.
pub fn is_verbose(logger: Option<&Logger>) -> (r: bool)
    ensures
        r == match logger {
            Some(l) => l.verbose_debug != 0,
            None => false,
        },
{
    if let Some(logger) = logger {
        logger.verbose_debug != 0
    } else {
        false
    }
}

/// The verbosity that the value of `BPFTRACE_LS_LOG_VERBOSE` selects: its number, or 0 when it is
/// unset or no `u32`.
pub fn parse_verbose_level(val: Option<&str>) -> (r: u32)
    ensures
        r == match val {
            None => 0,
            Some(v) => match spec_parse_unsigned(v@, 10, u32::MAX as nat) {
                Some(n) => n as u32,
                None => 0,
            },
        },
{
    match val {
        None => 0,
        Some(v) => {
            let chars = str_chars(v);
            assert(chars@.subrange(0, chars@.len() as int) =~= chars@);
            match parse_unsigned(&chars, 0, chars.len(), 10, u32::MAX as u64) {
                Some(n) => n as u32,
                None => 0,
            }
        },
    }
}

/// The category named `name` (in capitals), or 0 for a name that is none.
pub open spec fn mask_of_name(name: Seq<char>) -> u32 {
    if name == "PROTO"@ {
        PROTO
    } else if name == "DIAGN"@ {
        DIAGN
    } else if name == "COMPL"@ {
        COMPL
    } else if name == "NOTIF"@ {
        NOTIF
    } else if name == "HOVER"@ {
        HOVER
    } else if name == "BTFRD"@ {
        BTFRD
    } else if name == "PARSE"@ {
        PARSE
    } else if name == "DEFIN"@ {
        DEFIN
    } else {
        0
    }
}

/// The categories named by the comma-separated `components`, each trimmed and compared
/// case-insensitively; names of no category are ignored.
pub open spec fn components_mask(components: Seq<Seq<char>>) -> u32
    decreases components.len(),
{
    if components.len() == 0 {
        0
    } else {
        components_mask(components.drop_last()) | mask_of_name(
            spec_to_uppercase(spec_trim(components.last())),
        )
    }
}

/// The categories that a mask value selects before the default applies: a decimal number, a
/// hexadecimal number after `0x`, or comma-separated names; 0 for an empty value or a bad
/// hexadecimal number.
pub open spec fn spec_raw_mask(v: Seq<char>) -> u32 {
    if v.len() == 0 {
        0
    } else if spec_parse_unsigned(v, 10, u32::MAX as nat) is Some {
        spec_parse_unsigned(v, 10, u32::MAX as nat)->0 as u32
    } else if v.len() >= 2 && v[0] == '0' && v[1] == 'x' {
        match spec_parse_unsigned(v.skip(2), 16, u32::MAX as nat) {
            Some(n) => n as u32,
            None => 0,
        }
    } else {
        components_mask(spec_split(v, ','))
    }
}

/// The categories that the value of `BPFTRACE_LS_LOG_MASK` selects: the protocol messages when
/// it is unset or selects none.
pub open spec fn spec_log_mask(val: Option<Seq<char>>) -> u32 {
    match val {
        None => PROTO,
        Some(v) => if spec_raw_mask(v) == 0 {
            PROTO
        } else {
            spec_raw_mask(v)
        },
    }
}

/// The category named `name`, given in capitals; 0 for a name that is none.
pub fn name_mask(name: &String) -> (r: u32)
    ensures
        r == mask_of_name(name@),
{
    if *name == String::from_str("PROTO") {
        PROTO
    } else if *name == String::from_str("DIAGN") {
        DIAGN
    } else if *name == String::from_str("COMPL") {
        COMPL
    } else if *name == String::from_str("NOTIF") {
        NOTIF
    } else if *name == String::from_str("HOVER") {
        HOVER
    } else if *name == String::from_str("BTFRD") {
        BTFRD
    } else if *name == String::from_str("PARSE") {
        PARSE
    } else if *name == String::from_str("DEFIN") {
        DEFIN
    } else {
        0
    }
}

/// The categories that the value `val` of `BPFTRACE_LS_LOG_MASK` selects.
pub fn parse_log_mask(val: Option<&str>) -> (r: u32)
    ensures
        r == spec_log_mask(
            match val {
                Some(v) => Some(v@),
                None => None,
            },
        ),
{
    let v = match val {
        None => {
            return PROTO;
        },
        Some(v) => v,
    };
    let chars = str_chars(v);
    let ghost s = chars@;
    assert(s.subrange(0, s.len() as int) =~= s);
    let mut mask: u32 = 0;
    if chars.len() == 0 {
    } else {
        match parse_unsigned(&chars, 0, chars.len(), 10, u32::MAX as u64) {
            Some(n) => {
                mask = n as u32;
            },
            None => {
                if chars.len() >= 2 && chars[0] == '0' && chars[1] == 'x' {
                    assert(s.subrange(2, s.len() as int) =~= s.skip(2));
                    match parse_unsigned(&chars, 2, chars.len(), 16, u32::MAX as u64) {
                        Some(n) => {
                            mask = n as u32;
                        },
                        None => {},
                    }
                } else {
                    let pieces = split_ranges(&chars, 0, chars.len(), ',');
                    let ghost comps = spec_split(s, ',');
                    let mut i: usize = 0;
                    while i < pieces.len()
                        invariant
                            s == chars@,
                            comps == spec_split(s, ','),
                            i <= pieces@.len(),
                            pieces@.len() == comps.len(),
                            forall|k: int|
                                0 <= k < pieces@.len() ==> {
                                    &&& 0 <= (#[trigger] pieces@[k]).0 <= pieces@[k].1 <= s.len()
                                    &&& s.subrange(pieces@[k].0 as int, pieces@[k].1 as int)
                                        == comps[k]
                                },
                            mask == components_mask(comps.take(i as int)),
                        decreases pieces.len() - i,
                    {
                        let (a, b) = pieces[i];
                        let (ta, tb) = trim_range(&chars, a, b);
                        let comp = string_from_chars(&chars, ta, tb);
                        let upper = to_uppercase(comp.as_str());
                        let m = name_mask(&upper);
                        assert(comps.take(i + 1).drop_last() =~= comps.take(i as int));
                        mask = mask | m;
                        i = i + 1;
                    }
                    assert(comps.take(pieces@.len() as int) =~= comps);
                }
            },
        }
    }
    if mask == 0 {
        PROTO
    } else {
        mask
    }
}

/// Whatever the value of `BPFTRACE_LS_LOG_MASK`, some category is selected.
pub proof fn lemma_log_mask_nonzero(val: Option<Seq<char>>)
    ensures
        spec_log_mask(val) != 0,
{
}

} // verus!
