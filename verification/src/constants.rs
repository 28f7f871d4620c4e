//! The constant tables of the cipher that are not in the substitution box.
use vstd::prelude::*;
use crate::model::rcon;

verus! {

/// The round constant of round `i` of the key schedule.
pub fn rcon_byte(i: usize) -> (r: u8)
    requires
        i < 10,
    ensures
        r == rcon(i as nat),
{
    match i {
        0 => 0x01,
        1 => 0x02,
        2 => 0x04,
        3 => 0x08,
        4 => 0x10,
        5 => 0x20,
        6 => 0x40,
        7 => 0x80,
        8 => 0x1b,
        _ => 0x36,
    }
}

/// The texts of the coefficients of MixColumns.
pub open spec fn mix_columns_texts() -> Seq<Seq<Seq<char>>> {
    seq![
        seq![seq!['0', '2'], seq!['0', '3'], seq!['0', '1'], seq!['0', '1']],
        seq![seq!['0', '1'], seq!['0', '2'], seq!['0', '3'], seq!['0', '1']],
        seq![seq!['0', '1'], seq!['0', '1'], seq!['0', '2'], seq!['0', '3']],
        seq![seq!['0', '3'], seq!['0', '1'], seq!['0', '1'], seq!['0', '2']],
    ]
}

/// The texts of the coefficients of InvMixColumns.
pub open spec fn inv_mix_columns_texts() -> Seq<Seq<Seq<char>>> {
    seq![
        seq![seq!['0', 'e'], seq!['0', 'b'], seq!['0', 'd'], seq!['0', '9']],
        seq![seq!['0', '9'], seq!['0', 'e'], seq!['0', 'b'], seq!['0', 'd']],
        seq![seq!['0', 'd'], seq!['0', '9'], seq!['0', 'e'], seq!['0', 'b']],
        seq![seq!['0', 'b'], seq!['0', 'd'], seq!['0', '9'], seq!['0', 'e']],
    ]
}

/// Row `j` of the coefficient texts of MixColumns.
pub fn mix_columns_row(j: usize) -> (r: Vec<&'static str>)
    requires
        j < 4,
    ensures
        r.deep_view() == mix_columns_texts()[j as int],
{
    proof {
        reveal_strlit("01");
        assert("01"@ =~= seq!['0', '1']);
        reveal_strlit("02");
        assert("02"@ =~= seq!['0', '2']);
        reveal_strlit("03");
        assert("03"@ =~= seq!['0', '3']);
    }
    let r = match j {
        0 => vec!["02", "03", "01", "01"],
        1 => vec!["01", "02", "03", "01"],
        2 => vec!["01", "01", "02", "03"],
        _ => vec!["03", "01", "01", "02"],
    };
    assert(r.deep_view() =~= mix_columns_texts()[j as int]);
    r
}

/// Row `j` of the coefficient texts of InvMixColumns.
pub fn inv_mix_columns_row(j: usize) -> (r: Vec<&'static str>)
    requires
        j < 4,
    ensures
        r.deep_view() == inv_mix_columns_texts()[j as int],
{
    proof {
        reveal_strlit("09");
        assert("09"@ =~= seq!['0', '9']);
        reveal_strlit("0b");
        assert("0b"@ =~= seq!['0', 'b']);
        reveal_strlit("0d");
        assert("0d"@ =~= seq!['0', 'd']);
        reveal_strlit("0e");
        assert("0e"@ =~= seq!['0', 'e']);
    }
    let r = match j {
        0 => vec!["0e", "0b", "0d", "09"],
        1 => vec!["09", "0e", "0b", "0d"],
        2 => vec!["0d", "09", "0e", "0b"],
        _ => vec!["0b", "0d", "09", "0e"],
    };
    assert(r.deep_view() =~= inv_mix_columns_texts()[j as int]);
    r
}

} // verus!
