//! How values are written out as text.
use vstd::prelude::*;
use crate::interpreter::{MagicTask, VModel};

verus! {

pub open spec fn digit_char(d: int) -> char {
    if d == 0 { '0' } else if d == 1 { '1' } else if d == 2 { '2' } else if d == 3 { '3' }
    else if d == 4 { '4' } else if d == 5 { '5' } else if d == 6 { '6' } else if d == 7 { '7' }
    else if d == 8 { '8' } else { '9' }
}

/// The decimal digits of `n`, without leading zeros.
pub open spec fn digits(n: nat) -> Seq<char>
    decreases n,
{
    if n < 10 {
        seq![digit_char(n as int)]
    } else {
        digits(n / 10).push(digit_char((n % 10) as int))
    }
}

/// `i` in decimal, with a leading `-` when negative.
pub open spec fn decimal(i: int) -> Seq<char> {
    if i < 0 { seq!['-'] + digits((-i) as nat) } else { digits(i as nat) }
}

/// The text of a value, as `$out` shows it.
pub open spec fn printable(v: VModel) -> Seq<char>
    decreases v,
{
    match v {
        VModel::Null => "null"@,
        VModel::Integer(i) => decimal(i as int),
        VModel::Boolean(b) => if b { "true"@ } else { "false"@ },
        VModel::TaskReference(_, name) => "<task "@ + name + ">"@,
        VModel::MagicTaskReference(MagicTask::Out) => "<task (magic) $out>"@,
        VModel::Array(items) => "[ "@ + joined(items) + " ]"@,
        VModel::Range(b, e) => printable(*b) + " .. "@ + printable(*e),
    }
}

/// The texts of `s`, separated by `, `.
pub open spec fn joined(s: Seq<VModel>) -> Seq<char>
    decreases s,
{
    if s.len() == 0 {
        Seq::empty()
    } else if s.len() == 1 {
        printable(s[0])
    } else {
        joined(s.subrange(0, s.len() - 1)) + ", "@ + printable(s[s.len() - 1])
    }
}

pub open spec fn texts(parts: Seq<String>) -> Seq<Seq<char>> {
    parts.map_values(|p: String| p@)
}

/// Relies on i64's `to_string`: its decimal text.
#[verifier::external_body]
pub(crate) fn int_text(i: i64) -> (r: String)
    ensures
        r@ == decimal(i as int),
{
    i.to_string()
}

/// A task's display name: `name`, or `name[index]` for a replica.
pub open spec fn formatted(name: Seq<char>, index: Option<usize>) -> Seq<char> {
    match index {
        Some(i) => name + "["@ + decimal(i as int) + "]"@,
        None => name,
    }
}

/// Relies on usize's `to_string`: its decimal text.
#[verifier::external_body]
pub(crate) fn usize_text(i: usize) -> (r: String)
    ensures
        r@ == decimal(i as int),
{
    i.to_string()
}

/// Builds the display name of a task frame.
pub fn formatted_name(name: &String, index: Option<usize>) -> (r: String)
    ensures
        r@ == formatted(name@, index),
{
    match index {
        Some(i) => {
            let parts = vec![name.clone(), "[".to_owned(), usize_text(i), "]".to_owned()];
            proof {
                reveal_with_fuel(Seq::flatten, 5);
                assert(texts(parts@).flatten() =~= formatted(name@, index));
            }
            concat(&parts)
        },
        None => name.clone(),
    }
}

/// Relies on `concat` of string slices: the parts one after another.
#[verifier::external_body]
pub(crate) fn concat(parts: &Vec<String>) -> (r: String)
    ensures
        r@ == texts(parts@).flatten(),
{
    parts.concat()
}

} // verus!
