//! Search results as lines of comma-separated values.

use vstd::prelude::*;
use vstd::string::StringExecFns;
use crate::calendar::{calendar_text, format_time};
use crate::search::{ResultView, SearchResult};
use crate::sizes::size_text;
use crate::text::{decimal, push_decimal, to_chars};
use crate::timestamp::Timestamp;

verus! {

/// Whether a field must be quoted: it holds a comma, a quote or a line
/// feed.
pub open spec fn needs_quotes(s: Seq<char>) -> bool {
    s.contains(',') || s.contains('"') || s.contains('\n')
}

/// `s` with each quote doubled.
pub open spec fn doubled_quotes(s: Seq<char>) -> Seq<char>
    decreases s.len(),
{
    if s.len() == 0 {
        Seq::empty()
    } else if s.last() == '"' {
        doubled_quotes(s.drop_last()).push('"').push('"')
    } else {
        doubled_quotes(s.drop_last()).push(s.last())
    }
}

/// A field of a line of comma-separated values: as it is, or in quotes
/// with its own quotes doubled where it must be quoted.
pub open spec fn csv_field(s: Seq<char>) -> Seq<char> {
    if needs_quotes(s) {
        seq!['"'] + doubled_quotes(s) + seq!['"']
    } else {
        s
    }
}

/// Makes `s` a field of a line of comma-separated values.
pub fn escape_csv_field(s: &str) -> (r: String)
    ensures
        r@ == csv_field(s@),
{
    let chars = to_chars(s);
    let mut special: bool = false;
    let mut i: usize = 0;
    while i < chars.len()
        invariant
            i <= chars@.len(),
            special == needs_quotes(chars@.take(i as int)),
        decreases chars@.len() - i,
    {
        let c = chars[i];
        proof {
            let before = chars@.take(i as int);
            let after = chars@.take(i + 1);
            assert(after =~= before.push(c));
            assert forall|x: char| after.contains(x) == (before.contains(x) || x == c) by {
                if before.contains(x) {
                    let k = choose|k: int| 0 <= k < before.len() && before[k] == x;
                    assert(after[k] == x);
                }
                if x == c {
                    assert(after[i as int] == x);
                }
            }
        }
        if c == ',' || c == '"' || c == '\n' {
            special = true;
        }
        i += 1;
    }
    assert(chars@.take(chars@.len() as int) =~= chars@);
    if !special {
        return s.to_owned();
    }
    let mut r = String::new();
    r.push('"');
    let mut j: usize = 0;
    assert(chars@.take(0) =~= Seq::<char>::empty());
    while j < chars.len()
        invariant
            j <= chars@.len(),
            r@ == seq!['"'] + doubled_quotes(chars@.take(j as int)),
        decreases chars@.len() - j,
    {
        let c = chars[j];
        assert(chars@.take(j + 1).drop_last() =~= chars@.take(j as int));
        assert(chars@.take(j + 1).last() == c);
        if c == '"' {
            r.push('"');
            r.push('"');
            assert(r@ =~= seq!['"'] + doubled_quotes(chars@.take(j + 1)));
        } else {
            r.push(c);
            assert(r@ =~= seq!['"'] + doubled_quotes(chars@.take(j + 1)));
        }
        j += 1;
    }
    r.push('"');
    assert(r@ =~= seq!['"'] + doubled_quotes(chars@) + seq!['"']);
    r
}

/// A byte count for reading: `100 B`, `1.5 KB`, `1.0 MB`.
pub fn format_file_size(bytes: u64) -> (r: String)
    ensures
        r@ == size_text(bytes, 4, 1),
{
    crate::sizes::format_file_size(bytes)
}

/// A time as `YYYY-MM-DD HH:MM:SS`; empty where there is none.
pub open spec fn time_field(t: Option<Timestamp>) -> Seq<char> {
    match t {
        Some(t) => match calendar_text(t.secs, t.nanos, "%Y-%m-%d %H:%M:%S"@) {
            Some(s) => s,
            None => Seq::empty(),
        },
        None => Seq::empty(),
    }
}

/// The first line of an export.
pub open spec fn header_line() -> Seq<char> {
    "Name,Path,Type,Size (bytes),Size (formatted),Modified,Created,Accessed,Score"@
}

/// The line of one result: name, path, kind, size in bytes and for
/// reading, the three times, and the score.
pub open spec fn result_line(r: ResultView) -> Seq<char> {
    csv_field(r.entry.name) + seq![','] + csv_field(r.entry.path) + seq![','] + (if r.entry.is_directory {
        "Directory"@
    } else {
        "File"@
    }) + seq![','] + decimal(r.entry.size as nat) + seq![','] + size_text(r.entry.size, 4, 1)
        + seq![','] + time_field(r.entry.modified) + seq![','] + time_field(r.entry.created)
        + seq![','] + time_field(r.entry.accessed) + seq![','] + decimal(r.score as nat)
}

fn format_time_field(t: &Option<Timestamp>) -> (r: String)
    ensures
        r@ == time_field(*t),
{
    match t {
        Some(t) => match format_time(t.secs, t.nanos, "%Y-%m-%d %H:%M:%S") {
            Some(s) => s,
            None => String::new(),
        },
        None => String::new(),
    }
}

pub fn csv_header() -> (r: String)
    ensures
        r@ == header_line(),
{
    String::from_str("Name,Path,Type,Size (bytes),Size (formatted),Modified,Created,Accessed,Score")
}

/// The line of one result, without the line feed.
pub fn csv_row(result: &SearchResult) -> (r: String)
    ensures
        r@ == result_line(result@),
{
    let entry = &result.entry;
    let mut r = escape_csv_field(entry.name.as_str());
    r.push(',');
    r.append(escape_csv_field(entry.path.as_str()).as_str());
    r.push(',');
    if entry.is_directory {
        r.append("Directory");
    } else {
        r.append("File");
    }
    r.push(',');
    push_decimal(&mut r, entry.size);
    r.push(',');
    r.append(format_file_size(entry.size).as_str());
    r.push(',');
    r.append(format_time_field(&entry.modified).as_str());
    r.push(',');
    r.append(format_time_field(&entry.created).as_str());
    r.push(',');
    r.append(format_time_field(&entry.accessed).as_str());
    r.push(',');
    push_decimal(&mut r, result.score as u64);
    assert(r@ =~= result_line(result@));
    r
}

} // verus!
