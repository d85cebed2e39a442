//! Rendering thread content as markdown tables.
//!
//! The rendered text is handed to the outward mirroring collaborator; it
//! is valid for any markdown flavor supporting tables.  An event row
//! renders as one `|`-separated table line, its designated UTC column (if
//! any) formatted as `HH:MM`; a thread renders as its sections' markdown
//! in order.

use vstd::prelude::*;
use vstd::string::StrSliceExecFns;
use vstd::string::StringExecFns;
use crate::entity::Event;
use crate::json::json_model;
use crate::json::json_model_seq;
use crate::json::lemma_json_model_seq;
use crate::json::JsonModel;
use crate::json::JsonValue;
use crate::strutil::dec_rep;
use crate::strutil::i64_to_string;
use crate::strutil::int_rep;
use crate::strutil::u64_to_string;

verus! {

/// One character as it appears inside a table cell: newlines become
/// spaces and the column separator is escaped.
pub open spec fn escape_cell_char(c: char) -> Seq<char> {
    if c == '\n' {
        seq![' ']
    } else if c == '|' {
        seq!['\\', '|']
    } else {
        seq![c]
    }
}

/// A cell's text with newlines blanked and separators escaped.
pub open spec fn escape_cell(s: Seq<char>) -> Seq<char>
    decreases s.len(),
{
    if s.len() == 0 {
        Seq::empty()
    } else {
        escape_cell(s.drop_last()) + escape_cell_char(s.last())
    }
}

/// Escape one cell's text.
#[verifier::loop_isolation(false)]
pub fn escape_cell_exec(s: &str) -> (r: String)
    ensures
        r@ == escape_cell(s@),
{
    let len = s.unicode_len();
    let mut out = String::new();
    let mut i: usize = 0;
    while i < len
        invariant
            i <= len,
            out@ == escape_cell(s@.take(i as int)),
        decreases len - i,
    {
        proof {
            assert(s@.take(i as int + 1).drop_last() =~= s@.take(i as int));
        }
        let c = s.get_char(i);
        if c == '\n' {
            out.append(" ");
            proof {
                reveal_strlit(" ");
                assert(out@ =~= escape_cell(s@.take(i as int + 1)));
            }
        } else if c == '|' {
            out.append("\\|");
            proof {
                reveal_strlit("\\|");
                assert(out@ =~= escape_cell(s@.take(i as int + 1)));
            }
        } else {
            let piece = s.substring_char(i, i + 1);
            out.append(piece);
            proof {
                assert(piece@ =~= seq![s@[i as int]]);
                assert(out@ =~= escape_cell(s@.take(i as int + 1)));
            }
        }
        i += 1;
    }
    proof {
        assert(s@.take(len as int) =~= s@);
    }
    out
}

/// A number as two decimal digits (for in-range clock components).
pub open spec fn two_digits(n: int) -> Seq<char> {
    if n < 10 {
        seq!['0'] + dec_rep(n)
    } else {
        dec_rep(n)
    }
}

/// Render a clock component as two decimal digits.
pub fn two_digits_exec(n: u64) -> (r: String)
    requires
        n < 100,
    ensures
        r@ == two_digits(n as int),
{
    if n < 10 {
        let r = "0".to_owned().concat(u64_to_string(n).as_str());
        proof {
            reveal_strlit("0");
            assert(r@ =~= two_digits(n as int));
        }
        r
    } else {
        u64_to_string(n)
    }
}

/// The `HH:MM` form of an epoch-second timestamp's time of day.
pub open spec fn clock_of(timestamp: int) -> Seq<char> {
    two_digits(timestamp % 86400 / 3600) + ":"@ + two_digits(timestamp % 3600 / 60)
}

/// The text of one table cell: the designated UTC column shows its
/// timestamp's time of day, numbers print in decimal, strings stand as
/// they are; every cell is escaped.
pub open spec fn cell_of(col: JsonModel, is_utc: bool) -> Seq<char> {
    if is_utc {
        escape_cell(clock_of(col->Int_0))
    } else {
        match col {
            JsonModel::Int(n) => escape_cell(int_rep(n)),
            JsonModel::Str(s) => escape_cell(s),
            _ => Seq::empty(),
        }
    }
}

/// A row's columns as a markdown table line body (without the closing
/// separator): `|` before each cell.
pub open spec fn cols_md(cols: Seq<JsonModel>, utc: Option<i16>) -> Seq<char>
    decreases cols.len(),
{
    if cols.len() == 0 {
        Seq::empty()
    } else {
        cols_md(cols.drop_last(), utc) + seq!['|'] + cell_of(
            cols.last(),
            utc == Some((cols.len() - 1) as i16) && cols.len() - 1 <= i16::MAX,
        )
    }
}

/// The markdown of an event row: nothing while the row is unposted, else
/// one table line closed by `|` and a newline.
pub open spec fn event_markdown_spec(cols: Seq<JsonModel>, utc: Option<i16>, posted: bool) -> Seq<
    char,
> {
    if posted {
        cols_md(cols, utc) + seq!['|', '\n']
    } else {
        Seq::empty()
    }
}

/// May a posted event row be rendered?  Every column must be a number or
/// a string, and the designated UTC column a non-negative number.
pub open spec fn renderable_cols(cols: JsonModel, utc: Option<i16>) -> bool {
    &&& cols is Arr
    &&& forall|i: int|
        0 <= i < cols->Arr_0.len() ==> ((#[trigger] cols->Arr_0[i]) is Int || cols->Arr_0[i]
            is Str)
    &&& forall|i: int|
        0 <= i < cols->Arr_0.len() && utc == Some(i as i16) && i <= i16::MAX ==> (
        #[trigger] cols->Arr_0[i]) is Int && cols->Arr_0[i]->Int_0 >= 0
}

impl Event {
    /// Convert the event row to one line of a markdown table.  The
    /// designated UTC column of the owning thread (if any) is formatted
    /// as `HH:MM`.
    #[verifier::loop_isolation(false)]
    pub fn to_markdown(&self, utc_col_index: Option<i16>) -> (r: String)
        requires
            self.posted ==> renderable_cols(self@.cols, utc_col_index),
        ensures
            r@ == event_markdown_spec(self@.cols->Arr_0, utc_col_index, self.posted),
    {
        if !self.posted {
            return String::new();
        }
        let items = match &self.cols {
            JsonValue::Arr(items) => items,
            _ => {
                proof {
                    assert(false);
                }
                vstd::pervasive::unreached()
            },
        };
        let ghost im = json_model_seq(items@);
        proof {
            lemma_json_model_seq(items@);
        }
        let mut out = String::new();
        let mut i: usize = 0;
        while i < items.len()
            invariant
                i <= items@.len(),
                out@ == cols_md(im.take(i as int), utc_col_index),
            decreases items@.len() - i,
        {
            proof {
                assert(im.take(i as int + 1).drop_last() =~= im.take(i as int));
                assert(im.take(i as int + 1).last() == im[i as int]);
            }
            let is_utc = match utc_col_index {
                Option::Some(n) => n >= 0 && i == n as usize,
                Option::None => false,
            };
            out.append("|");
            let cell = if is_utc {
                let ts = match &items[i] {
                    JsonValue::Int(n) => *n,
                    _ => {
                        proof {
                            assert(false);
                        }
                        vstd::pervasive::unreached()
                    },
                };
                let hours = (ts % 86400) / 3600;
                let minutes = (ts % 3600) / 60;
                let clock = two_digits_exec(hours as u64).concat(":").concat(
                    two_digits_exec(minutes as u64).as_str(),
                );
                proof {
                    reveal_strlit(":");
                    assert(clock@ =~= clock_of(ts as int));
                }
                escape_cell_exec(clock.as_str())
            } else {
                match &items[i] {
                    JsonValue::Int(n) => escape_cell_exec(i64_to_string(*n).as_str()),
                    JsonValue::Str(s) => escape_cell_exec(s.as_str()),
                    _ => {
                        proof {
                            assert(false);
                        }
                        vstd::pervasive::unreached()
                    },
                }
            };
            out.append(cell.as_str());
            proof {
                reveal_strlit("|");
                assert(is_utc == (utc_col_index == Some(i as i16) && i as int <= i16::MAX));
                assert(out@ =~= cols_md(im.take(i as int + 1), utc_col_index));
            }
            i += 1;
        }
        proof {
            assert(im.take(im.len() as int) =~= im);
        }
        out.append("|\n");
        proof {
            reveal_strlit("|\n");
            assert(out@ =~= event_markdown_spec(self@.cols->Arr_0, utc_col_index, self.posted));
        }
        out
    }
}

/// The markdown of a whole thread: each section's markdown in order,
/// each followed by a blank line.
pub open spec fn thread_markdown_spec(sections_md: Seq<Seq<char>>) -> Seq<char>
    decreases sections_md.len(),
{
    if sections_md.len() == 0 {
        Seq::empty()
    } else {
        thread_markdown_spec(sections_md.drop_last()) + sections_md.last() + seq!['\n', '\n']
    }
}

/// Join rendered section markdowns into the thread's markdown.
#[verifier::loop_isolation(false)]
pub fn thread_markdown(sections_md: &Vec<String>) -> (r: String)
    ensures
        r@ == thread_markdown_spec(sections_md.deep_view()),
{
    let ghost sm = sections_md.deep_view();
    let mut out = String::new();
    let mut i: usize = 0;
    while i < sections_md.len()
        invariant
            i <= sm.len(),
            out@ == thread_markdown_spec(sm.take(i as int)),
        decreases sm.len() - i,
    {
        proof {
            assert(sm.take(i as int + 1).drop_last() =~= sm.take(i as int));
            assert(sm.take(i as int + 1).last() == sm[i as int]);
        }
        out.append(sections_md[i].as_str());
        out.append("\n\n");
        proof {
            reveal_strlit("\n\n");
            assert(out@ =~= thread_markdown_spec(sm.take(i as int + 1)));
        }
        i += 1;
    }
    proof {
        assert(sm.take(sm.len() as int) =~= sm);
    }
    out
}

} // verus!
