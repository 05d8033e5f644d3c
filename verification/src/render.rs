//! The textual rendering of tasks and of the manager's listing: a
//! fixed-width table, one row per stored task in current order.  Labels are
//! left-aligned and numbers right-aligned in their columns, as a terminal
//! table has them.

use vstd::prelude::*;
use vstd::string::{StrSliceExecFns, StringExecFns};

use crate::task::{Task, TaskView, Weight};
use crate::task_manager::TaskManager;

verus! {

/// The printed name of a weight tier.
pub open spec fn weight_name(w: Weight) -> Seq<char> {
    match w {
        Weight::High => "High"@,
        Weight::Med => "Med"@,
        Weight::Low => "Low"@,
    }
}

impl Weight {
    /// The tier's printed name.
    pub fn label(self) -> (r: &'static str)
        ensures
            r@ == weight_name(self),
    {
        match self {
            Weight::High => "High",
            Weight::Med => "Med",
            Weight::Low => "Low",
        }
    }
}

/// The character of a decimal digit value.
pub open spec fn digit_char(d: int) -> char {
    if d == 0 {
        '0'
    } else if d == 1 {
        '1'
    } else if d == 2 {
        '2'
    } else if d == 3 {
        '3'
    } else if d == 4 {
        '4'
    } else if d == 5 {
        '5'
    } else if d == 6 {
        '6'
    } else if d == 7 {
        '7'
    } else if d == 8 {
        '8'
    } else {
        '9'
    }
}

/// The decimal digits of a number, most significant first, without leading
/// zeroes (a lone zero for zero).
pub open spec fn dec_digits(n: nat) -> Seq<char>
    decreases n,
{
    if n < 10 {
        seq![digit_char(n as int)]
    } else {
        dec_digits(n / 10).push(digit_char((n % 10) as int))
    }
}

/// `n` spaces.
pub open spec fn spaces(n: int) -> Seq<char>
    decreases n,
{
    if n <= 0 {
        Seq::empty()
    } else {
        spaces(n - 1).push(' ')
    }
}

/// The text padded with trailing spaces to at least `w` characters.
pub open spec fn pad_right(s: Seq<char>, w: int) -> Seq<char> {
    if s.len() >= w {
        s
    } else {
        s + spaces(w - s.len())
    }
}

/// The text padded with leading spaces to at least `w` characters.
pub open spec fn pad_left(s: Seq<char>, w: int) -> Seq<char> {
    if s.len() >= w {
        s
    } else {
        spaces(w - s.len()) + s
    }
}

/// One table row of a task: context and description columns, the three day
/// counts, and the weight name, between column bars, ending the line.
pub open spec fn task_row(t: TaskView) -> Seq<char> {
    "| "@ + pad_right(t.context, 10) + " | "@ + pad_right(t.description, 25) + " | "@ + pad_left(
        dec_digits(t.days_to_start as nat),
        6,
    ) + " | "@ + pad_left(dec_digits(t.days_to_end as nat), 6) + " | "@ + pad_left(
        dec_digits(t.days_to_finish as nat),
        6,
    ) + " | "@ + pad_right(weight_name(t.weight), 7) + " |\n"@
}

/// One line of the manager's listing: the index column, then the task's row.
pub open spec fn row_line(t: TaskView, i: int) -> Seq<char> {
    "| "@ + pad_left(dec_digits(i as nat), 3) + " "@ + task_row(t)
}

/// The listing's header line.
pub open spec fn header() -> Seq<char> {
    "\n| Idx | Context    | Description               | Start  | End    | Finish | Weight |\n"@
}

/// The first `i` lines of the listing's body.
pub open spec fn rows_upto(s: Seq<TaskView>, i: int) -> Seq<char>
    decreases i,
{
    if i <= 0 || i > s.len() {
        Seq::empty()
    } else {
        rows_upto(s, i - 1) + row_line(s[i - 1], i - 1)
    }
}

/// The whole listing: the header, then one line per task, in order.
pub open spec fn listing(s: Seq<TaskView>) -> Seq<char> {
    header() + rows_upto(s, s.len() as int)
}

/// The decimal digit as text.
fn digit_str(d: usize) -> (r: &'static str)
    requires
        d < 10,
    ensures
        r@ == seq![digit_char(d as int)],
{
    proof {
        reveal_strlit("0");
        reveal_strlit("1");
        reveal_strlit("2");
        reveal_strlit("3");
        reveal_strlit("4");
        reveal_strlit("5");
        reveal_strlit("6");
        reveal_strlit("7");
        reveal_strlit("8");
        reveal_strlit("9");
        assert("0"@ =~= seq![digit_char(0)]);
        assert("1"@ =~= seq![digit_char(1)]);
        assert("2"@ =~= seq![digit_char(2)]);
        assert("3"@ =~= seq![digit_char(3)]);
        assert("4"@ =~= seq![digit_char(4)]);
        assert("5"@ =~= seq![digit_char(5)]);
        assert("6"@ =~= seq![digit_char(6)]);
        assert("7"@ =~= seq![digit_char(7)]);
        assert("8"@ =~= seq![digit_char(8)]);
        assert("9"@ =~= seq![digit_char(9)]);
    }
    if d == 0 {
        "0"
    } else if d == 1 {
        "1"
    } else if d == 2 {
        "2"
    } else if d == 3 {
        "3"
    } else if d == 4 {
        "4"
    } else if d == 5 {
        "5"
    } else if d == 6 {
        "6"
    } else if d == 7 {
        "7"
    } else if d == 8 {
        "8"
    } else {
        "9"
    }
}

/// A number as decimal text.
pub fn format_usize(n: usize) -> (s: String)
    ensures
        s@ == dec_digits(n as nat),
    decreases n,
{
    if n < 10 {
        digit_str(n).to_owned()
    } else {
        let mut s = format_usize(n / 10);
        s.append(digit_str(n % 10));
        proof {
            assert(s@ =~= dec_digits((n / 10) as nat).push(digit_char((n % 10) as int)));
        }
        s
    }
}

/// The text padded with trailing spaces to at least `width` characters.
fn padded_right(s: String, width: usize) -> (r: String)
    ensures
        r@ == pad_right(s@, width as int),
{
    let ghost orig = s@;
    let mut r = s;
    let mut k = r.as_str().unicode_len();
    proof {
        assert(r@ =~= orig + spaces(0));
    }
    while k < width
        invariant
            k == r@.len(),
            orig.len() <= k,
            orig.len() >= width ==> k == orig.len(),
            orig.len() < width ==> k <= width,
            r@ == orig + spaces(k - orig.len()),
        decreases width - k,
    {
        r.append(" ");
        proof {
            reveal_strlit(" ");
            assert(" "@ =~= seq![' ']);
            assert(r@ =~= orig + spaces(k + 1 - orig.len()));
        }
        k += 1;
    }
    proof {
        if orig.len() >= width {
            assert(r@ =~= orig);
        }
    }
    r
}

/// The text padded with leading spaces to at least `width` characters.
fn padded_left(s: String, width: usize) -> (r: String)
    ensures
        r@ == pad_left(s@, width as int),
{
    let k = s.as_str().unicode_len();
    let mut r = String::new();
    let mut j = k;
    proof {
        assert(r@ =~= spaces(0));
    }
    while j < width
        invariant
            k <= j,
            k == s@.len(),
            k >= width ==> j == k,
            k < width ==> j <= width,
            r@ == spaces(j - k),
        decreases width - j,
    {
        r.append(" ");
        proof {
            reveal_strlit(" ");
            assert(" "@ =~= seq![' ']);
            assert(r@ =~= spaces(j + 1 - k));
        }
        j += 1;
    }
    r.append(s.as_str());
    proof {
        if k >= width {
            assert(r@ =~= s@);
        }
    }
    r
}

impl Task {
    /// The task's table row, exactly as the listing shows it.
    pub fn render(&self) -> (r: String)
        ensures
            r@ == task_row(self@),
    {
        let mut r = "| ".to_owned();
        r.append(padded_right(self.get_context().to_owned(), 10).as_str());
        r.append(" | ");
        r.append(padded_right(self.get_description().to_owned(), 25).as_str());
        r.append(" | ");
        r.append(padded_left(format_usize(self.get_days_to_start()), 6).as_str());
        r.append(" | ");
        r.append(padded_left(format_usize(self.get_days_to_end()), 6).as_str());
        r.append(" | ");
        r.append(padded_left(format_usize(self.get_days_to_finish()), 6).as_str());
        r.append(" | ");
        r.append(padded_right(self.get_weight().label().to_owned(), 7).as_str());
        r.append(" |\n");
        r
    }
}

impl TaskManager {
    /// The listing of all stored tasks in current order: the header and one
    /// row per task, each with its index.
    pub fn render(&self) -> (r: String)
        ensures
            r@ == listing(self@),
    {
        let mut r =
            "\n| Idx | Context    | Description               | Start  | End    | Finish | Weight |\n".to_owned();
        let mut i: usize = 0;
        let n = self.len();
        proof {
            assert(r@ =~= header() + rows_upto(self@, 0));
        }
        while i < n
            invariant
                0 <= i <= n,
                n == self@.len(),
                r@ == header() + rows_upto(self@, i as int),
            decreases n - i,
        {
            let t = match self.peek_task(i) {
                Some(t) => t,
                None => {
                    proof {
                        assert(false);
                    }
                    unreached()
                },
            };
            let mut line = "| ".to_owned();
            line.append(padded_left(format_usize(i), 3).as_str());
            line.append(" ");
            line.append(t.render().as_str());
            proof {
                assert(line@ =~= row_line(self@[i as int], i as int));
            }
            r.append(line.as_str());
            proof {
                assert(r@ =~= header() + rows_upto(self@, i + 1));
            }
            i += 1;
        }
        r
    }
}

} // verus!
