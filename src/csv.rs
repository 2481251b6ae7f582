//! A small comma-separated table: a header line, then one row per line.
use vstd::prelude::*;
use crate::text::{pieces, split_on, trim, trimmed};
use crate::todo::{decimal_value, parse_decimal};

verus! {

/// One person of the table.
#[derive(Debug)]
pub struct Record {
    pub name: String,
    pub age: u32,
    pub city: String,
}

impl Record {
    pub fn new(name: String, age: u32, city: String) -> (r: Record)
        ensures
            r.name == name,
            r.age == age,
            r.city == city,
    {
        Record { name, age, city }
    }
}

/// A record as the contracts see it.
pub type RecordView = (Seq<char>, u32, Seq<char>);

/// The views of some strings.
pub open spec fn strings_view(v: Seq<String>) -> Seq<Seq<char>> {
    v.map_values(|x: String| x@)
}

/// The views of some rows.
pub open spec fn rows_view(rows: Seq<Vec<String>>) -> Seq<Seq<Seq<char>>> {
    rows.map_values(|r: Vec<String>| strings_view(r@))
}

/// The `u32` that `s` spells, as `u32::from_str` reads it.
pub open spec fn u32_value(s: Seq<char>) -> Option<u32> {
    match decimal_value(s) {
        Some(v) => if v <= u32::MAX {
            Some(v as u32)
        } else {
            None
        },
        None => None,
    }
}

/// The record that a row holds: its first three cells trimmed, the second
/// one read as the age. `None` for a short row or an unreadable age.
pub open spec fn record_of_row(row: Seq<Seq<char>>) -> Option<RecordView> {
    if row.len() < 3 {
        None
    } else {
        match u32_value(trimmed(row[1])) {
            Some(age) => Some((trimmed(row[0]), age, trimmed(row[2]))),
            None => None,
        }
    }
}

/// The records of every row but the first.
pub open spec fn records_of(rows: Seq<Seq<Seq<char>>>) -> Seq<RecordView>
    decreases rows.len(),
{
    if rows.len() <= 1 {
        Seq::empty()
    } else {
        match record_of_row(rows.last()) {
            Some(r) => records_of(rows.drop_last()).push(r),
            None => records_of(rows.drop_last()),
        }
    }
}

/// The first position of `col` among the headers.
pub open spec fn header_position(headers: Seq<Seq<char>>, col: Seq<char>) -> Option<nat> {
    if exists|i: int| 0 <= i < headers.len() && headers[i] == col {
        Some(
            (choose|i: int|
                0 <= i < headers.len() && headers[i] == col && forall|j: int|
                    0 <= j < i ==> headers[j] != col) as nat,
        )
    } else {
        None
    }
}

/// A table: the header cells and the cells of each row.
pub struct Csv {
    pub headers: Vec<String>,
    pub rows: Vec<Vec<String>>,
}

impl Csv {
    /// The table of `lines`: the first line gives the headers, each other
    /// line a row; cells are separated by commas.
    pub fn from_lines(lines: &Vec<String>) -> (c: Csv)
        ensures
            lines@.len() == 0 ==> c.headers@.len() == 0 && c.rows@.len() == 0,
            lines@.len() > 0 ==> strings_view(c.headers@) == pieces(lines@[0]@, ','),
            lines@.len() > 0 ==> c.rows@.len() == lines@.len() - 1 && forall|i: int|
                0 <= i < c.rows@.len() ==> strings_view(#[trigger] c.rows@[i]@) == pieces(
                    lines@[i + 1]@,
                    ',',
                ),
    {
        let mut headers: Vec<String> = Vec::new();
        let mut rows: Vec<Vec<String>> = Vec::new();
        let n = lines.len();
        if n == 0 {
            return Csv { headers, rows };
        }
        headers = split_on(lines[0].as_str(), ',');
        let mut i: usize = 1;
        while i < n
            invariant
                n == lines@.len(),
                1 <= i <= n,
                rows@.len() == i - 1,
                forall|k: int| 0 <= k < rows@.len() ==> strings_view(#[trigger] rows@[k]@) == pieces(lines@[k + 1]@, ','),
            decreases n - i,
        {
            rows.push(split_on(lines[i].as_str(), ','));
            i = i + 1;
        }
        Csv { headers, rows }
    }

    /// The cell of data row `row` (counted from zero) under header `cols`.
    pub fn get(&self, row: usize, cols: &str) -> (r: Option<&str>)
        ensures
            match header_position(strings_view(self.headers@), cols@) {
                Some(p) => if row < self.rows@.len() && p < self.rows@[row as int]@.len() {
                    r matches Some(s) && s@ == self.rows@[row as int]@[p as int]@
                } else {
                    r is None
                },
                None => r is None,
            },
    {
        let ghost hs = strings_view(self.headers@);
        let want = String::from_str(cols);
        let n = self.headers.len();
        let mut k: usize = 0;
        let mut pos: Option<usize> = None;
        while k < n
            invariant
                n == self.headers@.len(),
                hs == strings_view(self.headers@),
                want@ == cols@,
                k <= n,
                pos is None ==> forall|j: int| 0 <= j < k ==> hs[j] != cols@,
                pos matches Some(p) ==> p < n && hs[p as int] == cols@ && forall|j: int|
                    0 <= j < p ==> hs[j] != cols@,
            decreases n - k,
        {
            if pos.is_none() && self.headers[k] == want {
                pos = Some(k);
            }
            k = k + 1;
        }
        let idx = match pos {
            Some(p) => p,
            None => {
                assert(!(exists|i: int| 0 <= i < hs.len() && hs[i] == cols@));
                return None;
            },
        };
        proof {
            let p = choose|i: int|
                0 <= i < hs.len() && hs[i] == cols@ && forall|j: int| 0 <= j < i ==> hs[j] != cols@;
            assert(p == idx) by {
                if p < idx {
                    assert(hs[p] != cols@);
                } else if p > idx {
                    assert(hs[idx as int] != cols@);
                }
            }
        }
        if row >= self.rows.len() {
            return None;
        }
        let cells = &self.rows[row];
        if idx >= cells.len() {
            return None;
        }
        Some(cells[idx].as_str())
    }

    /// The records of all rows but the first data row: the first three cells
    /// trimmed, the second read as the age; short rows and rows without a
    /// readable age are skipped.
    pub fn iter_records(&self) -> (r: Vec<Record>)
        ensures
            r@.map_values(|x: Record| (x.name@, x.age, x.city@)) == records_of(rows_view(self.rows@)),
    {
        let ghost rv = rows_view(self.rows@);
        let mut records: Vec<Record> = Vec::new();
        let n = self.rows.len();
        if n == 0 {
            assert(records@.map_values(|x: Record| (x.name@, x.age, x.city@)) =~= records_of(rv));
            return records;
        }
        let mut i: usize = 1;
        assert(records@.map_values(|x: Record| (x.name@, x.age, x.city@)) =~= records_of(rv.subrange(0, 1)));
        while i < n
            invariant
                n == self.rows@.len(),
                rv == rows_view(self.rows@),
                1 <= i <= n,
                records@.map_values(|x: Record| (x.name@, x.age, x.city@)) == records_of(rv.subrange(0, i as int)),
            decreases n - i,
        {
            let ghost before = records@.map_values(|x: Record| (x.name@, x.age, x.city@));
            let ghost next = rv.subrange(0, i + 1);
            assert(next.drop_last() =~= rv.subrange(0, i as int));
            assert(next.last() == strings_view(self.rows@[i as int]@));
            let row = &self.rows[i];
            if row.len() >= 3 {
                let age_text = trim(row[1].as_str());
                match parse_decimal(age_text.as_str()) {
                    Some(v) => {
                        if v <= 0xffff_ffffusize {
                            let rec = Record::new(trim(row[0].as_str()), v as u32, trim(row[2].as_str()));
                            records.push(rec);
                            assert(records@.map_values(|x: Record| (x.name@, x.age, x.city@)) =~= before.push((rec.name@, rec.age, rec.city@)));
                        }
                    },
                    None => {},
                }
            }
            i = i + 1;
        }
        assert(rv.subrange(0, n as int) =~= rv);
        records
    }
}

} // verus!
