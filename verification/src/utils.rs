use vstd::prelude::*;
use vstd::string::StringExecFns;
use crate::strutil::spec_dec;

verus! {

/// 1024 to the power of the unit index.
pub open spec fn spec_unit_factor(idx: int) -> int {
    if idx == 1 {
        1024
    } else if idx == 2 {
        1048576
    } else if idx == 3 {
        1073741824
    } else {
        1099511627776
    }
}

/// Which unit a byte count prints in: bytes up to a kibibyte, then each
/// next unit up to a tebibyte.
pub open spec fn spec_unit_index(bytes: u64) -> int {
    if bytes < 1024 {
        0
    } else if bytes < 1048576 {
        1
    } else if bytes < 1073741824 {
        2
    } else if bytes < 1099511627776 {
        3
    } else {
        4
    }
}

pub open spec fn spec_unit_suffix(idx: int) -> Seq<char> {
    if idx == 0 {
        " B"@
    } else if idx == 1 {
        " KB"@
    } else if idx == 2 {
        " MB"@
    } else if idx == 3 {
        " GB"@
    } else {
        " TB"@
    }
}

/// A byte count rendered for people: whole bytes below a kibibyte,
/// otherwise the scaled value with one decimal digit (truncated) and the
/// unit's suffix.
pub open spec fn spec_format_size(bytes: u64) -> Seq<char> {
    let idx = spec_unit_index(bytes);
    if idx == 0 {
        spec_dec(bytes as int) + spec_unit_suffix(0)
    } else {
        let tenths = (bytes * 10) / spec_unit_factor(idx);
        spec_dec(tenths / 10) + seq!['.'] + spec_dec(tenths % 10) + spec_unit_suffix(idx)
    }
}

pub fn format_size(bytes: u64) -> (r: String)
    ensures
        r@ == spec_format_size(bytes),
{
    if bytes < 1024 {
        let mut s = crate::strutil::u64_to_string(bytes);
        s.append(" B");
        proof {
            assert(s@ =~= spec_dec(bytes as int) + spec_unit_suffix(0));
        }
        return s;
    }
    let factor: u64 = if bytes < 1048576 {
        1024
    } else if bytes < 1073741824 {
        1048576
    } else if bytes < 1099511627776 {
        1073741824
    } else {
        1099511627776
    };
    let suffix: &'static str = if bytes < 1048576 {
        " KB"
    } else if bytes < 1073741824 {
        " MB"
    } else if bytes < 1099511627776 {
        " GB"
    } else {
        " TB"
    };
    let tenths128: u128 = (bytes as u128) * 10 / (factor as u128);
    proof {
        assert(tenths128 == (bytes as int) * 10 / (factor as int));
        assert((bytes as int) * 10 / (factor as int) <= (bytes as int) * 10 / 1024)
            by (nonlinear_arith)
            requires
                factor >= 1024,
                bytes >= 0,
        ;
        assert((bytes as int) * 10 / 1024 < u64::MAX) by (nonlinear_arith)
            requires
                0 <= bytes <= u64::MAX,
        ;
    }
    let tenths: u64 = tenths128 as u64;
    let mut s = crate::strutil::u64_to_string(tenths / 10);
    let frac = crate::strutil::u64_to_string(tenths % 10);
    s.append(".");
    s.append(frac.as_str());
    s.append(suffix);
    proof {
        reveal_strlit(".");
        let idx = spec_unit_index(bytes);
        assert(s@ =~= spec_dec((tenths / 10) as int) + seq!['.'] + spec_dec((tenths % 10) as int)
            + spec_unit_suffix(idx));
    }
    s
}

} // verus!
