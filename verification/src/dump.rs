//! The lines by which a container is listed for a reader: its dimensions
//! and its variables, as text.

use vstd::prelude::*;
use vstd::string::*;
use crate::dimension::{current_len, dimension_views, Dimension, DimensionView};
use crate::error::{Error, NC_EBADDIM};
use crate::variable::{Variable, VariableView};

verus! {

/// The character that stands for a digit.
pub open spec fn digit_char(d: nat) -> char {
    if d == 0 {
        '0'
    } else if d == 1 {
        '1'
    } else if d == 2 {
        '2'
    } else if d == 3 {
        '3'
    } else if d == 4 {
        '4'
    } else if d == 5 {
        '5'
    } else if d == 6 {
        '6'
    } else if d == 7 {
        '7'
    } else if d == 8 {
        '8'
    } else {
        '9'
    }
}

/// A number in decimal digits, without leading zeros.
pub open spec fn decimal_text(n: nat) -> Seq<char>
    decreases n,
{
    if n < 10 {
        seq![digit_char(n)]
    } else {
        decimal_text(n / 10).push(digit_char(n % 10))
    }
}

/// The line that lists a dimension: its name; then its current length in
/// brackets, after the word `Unlimited` if the dimension grows.
pub open spec fn dimension_text(name: Seq<char>, unlimited: bool, len: nat) -> Seq<char> {
    if unlimited {
        "\t"@ + name + " : Unlimited ("@ + decimal_text(len) + ")"@
    } else {
        "\t"@ + name + " : ("@ + decimal_text(len) + ")"@
    }
}

/// The names of the first `n` dimensions, each between two blanks.
pub open spec fn shape_text(dims: Seq<DimensionView>, n: nat) -> Seq<char>
    decreases n,
{
    if n == 0 || n > dims.len() {
        Seq::empty()
    } else {
        shape_text(dims, (n - 1) as nat) + " "@ + dims[n - 1].name + " "@
    }
}

/// The line that lists a variable: its name, and in brackets the names of
/// its dimensions in the order of its shape.
pub open spec fn variable_text(v: VariableView) -> Seq<char> {
    "\t"@ + v.name + "("@ + shape_text(v.dimensions, v.dimensions.len()) + ")"@
}

/// The heading under which a subgroup is listed.
pub open spec fn group_text(name: Seq<char>) -> Seq<char> {
    "Group: "@ + name
}

/// One digit as text.
fn digit(d: usize) -> (s: &'static str)
    requires
        d < 10,
    ensures
        s@ == seq![digit_char(d as nat)],
{
    proof {
        reveal_strlit("0");
        reveal_strlit("1");
        reveal_strlit("2");
        reveal_strlit("3");
        reveal_strlit("4");
        reveal_strlit("5");
        reveal_strlit("6");
        reveal_strlit("7");
        reveal_strlit("8");
        reveal_strlit("9");
    }
    let s = if d == 0 {
        "0"
    } else if d == 1 {
        "1"
    } else if d == 2 {
        "2"
    } else if d == 3 {
        "3"
    } else if d == 4 {
        "4"
    } else if d == 5 {
        "5"
    } else if d == 6 {
        "6"
    } else if d == 7 {
        "7"
    } else if d == 8 {
        "8"
    } else {
        "9"
    };
    assert(s@ =~= seq![digit_char(d as nat)]);
    s
}

/// Writes a number in decimal digits.
pub fn decimal(n: usize) -> (s: String)
    ensures
        s@ == decimal_text(n as nat),
    decreases n,
{
    if n < 10 {
        String::from_str(digit(n))
    } else {
        let mut s = decimal(n / 10);
        s.append(digit(n % 10));
        assert(s@ =~= decimal_text(n as nat));
        s
    }
}

/// Writes the line that lists a dimension of the given current length.
pub fn dimension_line(name: &str, unlimited: bool, len: usize) -> (line: String)
    ensures
        line@ == dimension_text(name@, unlimited, len as nat),
{
    let mut line = String::from_str("\t");
    line.append(name);
    if unlimited {
        line.append(" : Unlimited (");
    } else {
        line.append(" : (");
    }
    let digits = decimal(len);
    line.append(digits.as_str());
    line.append(")");
    line
}

/// Writes the line that lists a dimension. `status` and `answer` are what
/// the engine gave when asked for the current length of the dimension;
/// they are read only if the dimension grows. Where the engine failed
/// there is no line, but the error that classifies its status.
pub fn dimension_entry(d: &Dimension, status: i32, answer: usize) -> (r: Result<String, Error>)
    ensures
        match current_len(d@, status, answer) {
            Ok(len) => r.is_ok() && r.unwrap()@ == dimension_text(
                d@.name,
                d@.len.is_none(),
                len as nat,
            ),
            Err(e) => r.is_err() && r.unwrap_err() == e,
        },
{
    match d.len(status, answer) {
        Ok(len) => {
            let name = d.name();
            Ok(dimension_line(name.as_str(), d.is_unlimited(), len))
        },
        Err(e) => Err(e),
    }
}

/// Writes the line that lists a variable.
pub fn variable_line(v: &Variable) -> (line: String)
    ensures
        line@ == variable_text(v@),
{
    let mut line = String::from_str("\t");
    let name = v.name();
    line.append(name.as_str());
    line.append("(");
    let ghost head = line@;
    let dims = v.dimensions();
    let mut i: usize = 0;
    while i < dims.len()
        invariant
            i <= dims@.len(),
            dimension_views(dims@) == v@.dimensions,
            line@ == head + shape_text(v@.dimensions, i as nat),
        decreases dims@.len() - i,
    {
        let name = dims[i].name();
        line.append(" ");
        line.append(name.as_str());
        line.append(" ");
        proof {
            assert(dimension_views(dims@)[i as int] == dims@[i as int]@);
            assert(line@ =~= head + shape_text(v@.dimensions, (i + 1) as nat));
        }
        i += 1;
    }
    line.append(")");
    assert(dimension_views(dims@).len() == dims@.len());
    line
}

/// Writes the heading under which a subgroup is listed.
pub fn group_heading(name: &str) -> (line: String)
    ensures
        line@ == group_text(name@),
{
    let mut line = String::from_str("Group: ");
    line.append(name);
    line
}

/// What the engine answered when asked for the length of the dimension at
/// `i`, where `answers` holds its status and its answer for each dimension
/// in turn. A dimension without an answer is one that the engine was not
/// asked about: that counts as a dimension that the engine does not know.
pub open spec fn answer_for(answers: Seq<(i32, usize)>, i: int) -> (i32, usize) {
    if 0 <= i < answers.len() {
        answers[i]
    } else {
        (NC_EBADDIM, 0usize)
    }
}

/// The length by which the dimension at `i` is listed, or why it can not
/// be listed.
pub open spec fn listed_len(d: DimensionView, answers: Seq<(i32, usize)>, i: int) -> Result<
    usize,
    Error,
> {
    current_len(d, answer_for(answers, i).0, answer_for(answers, i).1)
}

/// The error of the first dimension, at or after `from`, that can not be
/// listed.
pub open spec fn listing_error_from(
    dims: Seq<DimensionView>,
    answers: Seq<(i32, usize)>,
    from: int,
) -> Option<Error>
    decreases dims.len() - from,
{
    if from < 0 || from >= dims.len() {
        None
    } else if listed_len(dims[from], answers, from).is_err() {
        Some(listed_len(dims[from], answers, from).unwrap_err())
    } else {
        listing_error_from(dims, answers, from + 1)
    }
}

/// The error of the first dimension that can not be listed; `None` if all
/// can.
pub open spec fn listing_error(dims: Seq<DimensionView>, answers: Seq<(i32, usize)>) -> Option<
    Error,
> {
    listing_error_from(dims, answers, 0)
}

/// The lines that list the dimensions of a group: a heading, then one line
/// for each dimension, in the order in which the group holds them.
pub open spec fn dimensions_text(dims: Seq<DimensionView>, answers: Seq<(i32, usize)>) -> Seq<
    Seq<char>,
>
    recommends
        listing_error(dims, answers).is_none(),
{
    seq!["Dimensions:"@] + Seq::new(
        dims.len(),
        |i: int|
            dimension_text(
                dims[i].name,
                dims[i].len.is_none(),
                listed_len(dims[i], answers, i).unwrap() as nat,
            ),
    )
}

/// The texts of a sequence of lines, in order.
pub open spec fn line_views(lines: Seq<String>) -> Seq<Seq<char>> {
    lines.map_values(|s: String| s@)
}

/// Writes the lines that list the dimensions of a group. `answers` holds
/// the status and the answer that the engine gave when asked for the
/// current length of each dimension in turn; they are read only for a
/// dimension that grows.
///
/// Fails with the error of the first dimension that grows and whose length
/// the engine did not give: the error that classifies its status, and
/// [`Error::NotFound`] where there is no answer for it at all.
pub fn dimensions_section(dims: &Vec<Dimension>, answers: &Vec<(i32, usize)>) -> (r: Result<
    Vec<String>,
    Error,
>)
    ensures
        match listing_error(dimension_views(dims@), answers@) {
            None => r.is_ok() && line_views(r.unwrap()@) == dimensions_text(
                dimension_views(dims@),
                answers@,
            ),
            Some(e) => r.is_err() && r.unwrap_err() == e,
        },
{
    let ghost views = dimension_views(dims@);
    let mut lines: Vec<String> = Vec::new();
    lines.push(String::from_str("Dimensions:"));
    let mut i: usize = 0;
    while i < dims.len()
        invariant
            i <= dims@.len(),
            views == dimension_views(dims@),
            lines@.len() == i + 1,
            lines@[0]@ == "Dimensions:"@,
            listing_error(views, answers@) == listing_error_from(views, answers@, i as int),
            forall|k: int| 0 <= k < i ==> listed_len(views[k], answers@, k).is_ok(),
            forall|k: int|
                0 <= k < i ==> (#[trigger] lines@[k + 1])@ == dimension_text(
                    views[k].name,
                    views[k].len.is_none(),
                    listed_len(views[k], answers@, k).unwrap() as nat,
                ),
        decreases dims@.len() - i,
    {
        assert(views[i as int] == dims@[i as int]@);
        let entry = if i < answers.len() {
            dimension_entry(&dims[i], answers[i].0, answers[i].1)
        } else {
            dimension_entry(&dims[i], NC_EBADDIM, 0)
        };
        match entry {
            Ok(line) => {
                lines.push(line);
            },
            Err(e) => {
                return Err(e);
            },
        }
        i += 1;
    }
    proof {
        let want = dimensions_text(views, answers@);
        assert(line_views(lines@).len() == want.len());
        assert forall|k: int| 0 <= k < want.len() implies line_views(lines@)[k] == want[k] by {
            if k > 0 {
                assert(lines@[(k - 1) + 1]@ == want[k]);
            }
        }
        assert(line_views(lines@) =~= want);
    }
    Ok(lines)
}

} // verus!
