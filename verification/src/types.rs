//! Core data types: calendar dates, extracted tables, and the date filter
//! configuration, together with the library's error kinds.

use vstd::prelude::*;

verus! {

/// A calendar date, held as plain year / month / day fields.
///
/// Dates compare lexicographically on `(year, month, day)`, which agrees
/// with calendar order for well-formed dates.
#[derive(Clone, Copy, PartialEq, Eq, Structural, Debug)]
pub struct Date {
    pub year: i32,
    pub month: u8,
    pub day: u8,
}

impl Date {
    /// A date is well formed when the month and day lie in calendar bounds.
    pub open spec fn wf(self) -> bool {
        1 <= self.month <= 12 && 1 <= self.day <= 31
    }

    /// Calendar order on dates: year first, then month, then day.
    pub open spec fn spec_le(self, other: Date) -> bool {
        if self.year != other.year {
            self.year < other.year
        } else if self.month != other.month {
            self.month < other.month
        } else {
            self.day <= other.day
        }
    }

    /// Decides whether `self` is on or before `other` in calendar order.
    pub fn le(&self, other: &Date) -> (r: bool)
        ensures
            r == self.spec_le(*other),
    {
        if self.year != other.year {
            self.year < other.year
        } else if self.month != other.month {
            self.month < other.month
        } else {
            self.day <= other.day
        }
    }
}

/// A table declared in the dump: its name and its ordered column names.
#[derive(Clone, Debug)]
pub struct Table {
    pub name: String,
    pub columns: Vec<String>,
}

/// The view of a sequence of strings as a sequence of character sequences.
pub open spec fn strs_view(v: Seq<String>) -> Seq<Seq<char>> {
    v.map_values(|s: String| s@)
}

/// The view of a sequence of rows as nested character sequences.
pub open spec fn rows_view(v: Seq<Vec<String>>) -> Seq<Seq<Seq<char>>> {
    v.map_values(|r: Vec<String>| strs_view(r@))
}

/// Error raised by the extractors when an internal matching pattern
/// fails to compile.
#[derive(Clone, Copy, PartialEq, Eq, Structural, Debug)]
pub enum ExtractError {
    PatternInvalid,
}

/// Errors raised while building a `DateFilter` from configuration input.
#[derive(Clone, Copy, PartialEq, Eq, Structural, Debug)]
pub enum FilterConfigError {
    /// The filter flag was given without its required arguments.
    MissingArguments,
    /// The start date does not parse as `YYYY-MM-DD`.
    InvalidStartDate,
    /// The end date does not parse as `YYYY-MM-DD`.
    InvalidEndDate,
    /// The start date is later than the end date.
    StartAfterEnd,
}

/// Error raised when the filter's column name is absent from a table's
/// header.
#[derive(Clone, Copy, PartialEq, Eq, Structural, Debug)]
pub enum FilterError {
    ColumnMissing,
}

/// A date-range filter: the column to read and an inclusive date range.
///
/// The fields are private so that `start_date <= end_date` holds of every
/// value by construction: `new` refuses a start date later than the end
/// date.
#[derive(Debug)]
pub struct DateFilter {
    column_name: String,
    start_date: Date,
    end_date: Date,
}

impl DateFilter {
    /// Every `DateFilter` satisfies this: the start of the range is on or
    /// before its end.
    #[verifier::type_invariant]
    pub open spec fn wf(self) -> bool {
        self.spec_start().spec_le(self.spec_end())
    }

    pub closed spec fn spec_column(self) -> Seq<char> {
        self.column_name@
    }

    pub closed spec fn spec_start(self) -> Date {
        self.start_date
    }

    pub closed spec fn spec_end(self) -> Date {
        self.end_date
    }

    /// Builds a filter, refusing a start date later than the end date, so
    /// that the range invariant holds of every constructed value.
    pub fn new(column_name: String, start_date: Date, end_date: Date) -> (r: Result<
        DateFilter,
        FilterConfigError,
    >)
        ensures
            start_date.spec_le(end_date) ==> (r matches Ok(f) && f.spec_column() == column_name@
                && f.spec_start() == start_date && f.spec_end() == end_date && f.wf()),
            !start_date.spec_le(end_date) ==> (r matches Err(e) && e
                == FilterConfigError::StartAfterEnd),
    {
        if start_date.le(&end_date) {
            Ok(DateFilter { column_name, start_date, end_date })
        } else {
            Err(FilterConfigError::StartAfterEnd)
        }
    }

    /// The name of the column the filter reads.
    pub fn column_name(&self) -> (r: &String)
        ensures
            r@ == self.spec_column(),
    {
        &self.column_name
    }

    /// The inclusive start of the date range. It is on or before the end
    /// of the range: every filter is constructed that way.
    pub fn start_date(&self) -> (r: Date)
        ensures
            r == self.spec_start(),
            r.spec_le(self.spec_end()),
    {
        proof {
            use_type_invariant(self);
        }
        self.start_date
    }

    /// The inclusive end of the date range. The start of the range is on
    /// or before it: every filter is constructed that way.
    pub fn end_date(&self) -> (r: Date)
        ensures
            r == self.spec_end(),
            self.spec_start().spec_le(r),
    {
        proof {
            use_type_invariant(self);
        }
        self.end_date
    }
}

} // verus!
