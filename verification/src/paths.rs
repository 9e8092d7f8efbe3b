//! The naming convention that locates a run's container file: a run
//! number becomes `run_NNNN.h5` under a parent directory, with the run
//! number in decimal, zero-padded to at least four digits.

use vstd::prelude::*;
use vstd::string::StringExecFns;

verus! {

/// The decimal digit character for `d` in `0 ..= 9`.
pub open spec fn digit_char(d: int) -> char {
    if d == 0 {
        '0'
    } else if d == 1 {
        '1'
    } else if d == 2 {
        '2'
    } else if d == 3 {
        '3'
    } else if d == 4 {
        '4'
    } else if d == 5 {
        '5'
    } else if d == 6 {
        '6'
    } else if d == 7 {
        '7'
    } else if d == 8 {
        '8'
    } else {
        '9'
    }
}

/// The decimal digit characters of `n`, most significant first.
pub open spec fn decimal_digits(n: int) -> Seq<char>
    decreases n,
{
    if n <= 9 {
        seq![digit_char(n)]
    } else {
        decimal_digits(n / 10) + seq![digit_char(n % 10)]
    }
}

/// The decimal digits of `n`, left-padded with zeros to width four.
pub open spec fn padded_run_digits(n: int) -> Seq<char> {
    let d = decimal_digits(n);
    if d.len() >= 4 {
        d
    } else {
        Seq::new((4 - d.len()) as nat, |i: int| '0') + d
    }
}

/// The file name of a run's container: `run_NNNN.h5`.
pub open spec fn run_file_name(run: int) -> Seq<char> {
    "run_"@ + padded_run_digits(run) + ".h5"@
}

/// The full path of a run's container under a parent directory.
pub open spec fn run_path_chars(dir: Seq<char>, run: int) -> Seq<char> {
    dir + "/"@ + run_file_name(run)
}

proof fn lemma_decimal_digits_len(n: int)
    requires
        0 <= n,
    ensures
        n <= 9 ==> decimal_digits(n).len() == 1,
        10 <= n && n <= 99 ==> decimal_digits(n).len() == 2,
        100 <= n && n <= 999 ==> decimal_digits(n).len() == 3,
        1000 <= n ==> decimal_digits(n).len() >= 4,
    decreases n,
{
    if n >= 10 {
        lemma_decimal_digits_len(n / 10);
    }
}

/// One decimal digit as a string slice.
fn digit_str(d: u32) -> (r: &'static str)
    requires
        d < 10,
    ensures
        r@ =~= seq![digit_char(d as int)],
{
    proof {
        reveal_strlit("0");
        reveal_strlit("1");
        reveal_strlit("2");
        reveal_strlit("3");
        reveal_strlit("4");
        reveal_strlit("5");
        reveal_strlit("6");
        reveal_strlit("7");
        reveal_strlit("8");
        reveal_strlit("9");
    }
    match d {
        0 => "0",
        1 => "1",
        2 => "2",
        3 => "3",
        4 => "4",
        5 => "5",
        6 => "6",
        7 => "7",
        8 => "8",
        _ => "9",
    }
}

/// The decimal digit string of `n`, most significant first.
fn digits_string(n: u32) -> (r: String)
    ensures
        r@ =~= decimal_digits(n as int),
    decreases n,
{
    if n <= 9 {
        let d = digit_str(n);
        d.to_owned()
    } else {
        let mut s = digits_string(n / 10);
        let last = digit_str(n % 10);
        s.append(last);
        s
    }
}

/// Builds the path of a run's container file from the parent directory
/// and the run number: `<path>/run_NNNN.h5`, the run number in decimal
/// and zero-padded to at least four digits.
pub fn construct_run_path(path: &str, run_number: i32) -> (r: String)
    requires
        0 <= run_number,
    ensures
        r@ =~= run_path_chars(path@, run_number as int),
{
    proof {
        reveal_strlit("/");
        reveal_strlit("run_");
        reveal_strlit("000");
        reveal_strlit("00");
        reveal_strlit("0");
        reveal_strlit(".h5");
        lemma_decimal_digits_len(run_number as int);
    }
    let n = run_number as u32;
    let mut s: String = path.to_owned();
    s.append("/");
    s.append("run_");
    if n <= 9 {
        s.append("000");
    } else if n <= 99 {
        s.append("00");
    } else if n <= 999 {
        s.append("0");
    }
    let digits = digits_string(n);
    s.append(digits.as_str());
    s.append(".h5");
    proof {
        assert("000"@ =~= Seq::new(3nat, |i: int| '0'));
        assert("00"@ =~= Seq::new(2nat, |i: int| '0'));
        assert("0"@ =~= Seq::new(1nat, |i: int| '0'));
        assert(s@ =~= run_path_chars(path@, run_number as int));
    }
    s
}

} // verus!
