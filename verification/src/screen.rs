use vstd::prelude::*;

verus! {

/// A place on the terminal screen, or the size of the screen: the column
/// comes first, the row second.
#[derive(Debug, PartialEq, Eq, Structural)]
pub struct Position(pub u16, pub u16);

impl Position {
    /// The position at column `x` and row `y`.
    pub fn new(x: u16, y: u16) -> (p: Self)
        ensures
            p.0 == x,
            p.1 == y,
    {
        Position(x, y)
    }

    /// A copy of this position.
    pub fn clone(&self) -> (p: Self)
        ensures
            p == *self,
    {
        Position(self.0, self.1)
    }

    /// Takes the position that the terminal reported, where it reported one,
    /// and stays where it is otherwise.
    pub fn apply_cursor_report(&mut self, report: Option<(u16, u16)>)
        ensures
            match report {
                Some((x, y)) => *final(self) == Position(x, y),
                None => *final(self) == *old(self),
            },
    {
        if let Some((x, y)) = report {
            self.0 = x;
            self.1 = y;
        }
    }
}

/// One piece of what the program writes to the terminal.
#[derive(Clone, Copy, Debug, PartialEq, Eq, Structural)]
pub enum Output {
    /// A cell with neither half lit.
    Blank,
    /// A cell with its lower half lit.
    LowerHalf,
    /// A cell with its upper half lit.
    UpperHalf,
    /// A cell with both halves lit.
    FullBlock,
    /// The end of one line of a glyph: a space, then back nine columns and
    /// down one row.
    RowEnd,
    /// The end of a glyph: right eight columns and up nine rows.
    GlyphEnd,
    /// The cursor to the top left corner.
    Home,
    /// Clear the scroll-back, then the cursor to the top left corner.
    ClearHome,
    /// The cursor one column left.
    CursorLeft,
    /// The cursor one column right.
    CursorRight,
    /// The cursor one row up.
    CursorUp,
    /// The cursor one row down.
    CursorDown,
    /// The terminal bell.
    Bell,
    /// The terminal bell, then a new line.
    BellLine,
}

/// The text that the terminal receives for `o`.
pub open spec fn output_text(o: Output) -> Seq<char> {
    match o {
        Output::Blank => " "@,
        Output::LowerHalf => "\u{2584}"@,
        Output::UpperHalf => "\u{2580}"@,
        Output::FullBlock => "\u{2588}"@,
        Output::RowEnd => " \x1b[9D\x1b[1B"@,
        Output::GlyphEnd => "\x1b[8C\x1b[9A"@,
        Output::Home => "\x1b[H"@,
        Output::ClearHome => "\x1b[3J\x1b[H"@,
        Output::CursorLeft => "\x1b[1D"@,
        Output::CursorRight => "\x1b[1C"@,
        Output::CursorUp => "\x1b[1A"@,
        Output::CursorDown => "\x1b[1B"@,
        Output::Bell => "\x07"@,
        Output::BellLine => "\x07\n"@,
    }
}

impl Output {
    /// The text that the terminal receives for this output.
    pub fn text(&self) -> (s: &'static str)
        ensures
            s@ == output_text(*self),
    {
        match self {
            Output::Blank => " ",
            Output::LowerHalf => "\u{2584}",
            Output::UpperHalf => "\u{2580}",
            Output::FullBlock => "\u{2588}",
            Output::RowEnd => " \x1b[9D\x1b[1B",
            Output::GlyphEnd => "\x1b[8C\x1b[9A",
            Output::Home => "\x1b[H",
            Output::ClearHome => "\x1b[3J\x1b[H",
            Output::CursorLeft => "\x1b[1D",
            Output::CursorRight => "\x1b[1C",
            Output::CursorUp => "\x1b[1A",
            Output::CursorDown => "\x1b[1B",
            Output::Bell => "\x07",
            Output::BellLine => "\x07\n",
        }
    }
}

// ---------------------------------------------------------------------------
// The terminal's cursor position report
// ---------------------------------------------------------------------------

/// How far the report has been read: which number the bytes go to (0 before
/// `[`, 1 for the row after `[`, 2 for the column after `;`), the bytes of
/// each number, and whether the closing `R` has been seen.
pub struct ReportScan {
    pub field: u8,
    pub rows: Seq<u8>,
    pub cols: Seq<u8>,
    pub ended: bool,
}

/// The report `ESC [ row ; col R` read byte by byte.
pub open spec fn scan_report(input: Seq<u8>) -> ReportScan
    decreases input.len(),
{
    if input.len() == 0 {
        ReportScan { field: 0, rows: seq![], cols: seq![], ended: false }
    } else {
        let st = scan_report(input.drop_last());
        let b = input.last();
        if st.ended {
            st
        } else if b == 91 {
            ReportScan { field: 1, rows: st.rows, cols: st.cols, ended: false }
        } else if b == 59 {
            ReportScan { field: 2, rows: st.rows, cols: st.cols, ended: false }
        } else if b == 82 {
            ReportScan { field: st.field, rows: st.rows, cols: st.cols, ended: true }
        } else if st.field == 1 {
            ReportScan { field: 1, rows: st.rows.push(b), cols: st.cols, ended: false }
        } else if st.field == 2 {
            ReportScan { field: 2, rows: st.rows, cols: st.cols.push(b), ended: false }
        } else {
            st
        }
    }
}

/// The decimal number that the bytes `ds` spell, each counted as its
/// distance from `0`.
pub open spec fn report_number(ds: Seq<u8>) -> int
    decreases ds.len(),
{
    if ds.len() == 0 {
        0
    } else {
        report_number(ds.drop_last()) * 10 + (ds.last() - 48)
    }
}

/// The bytes spell a number that a `u16` holds: none of them lies below
/// `0`, and the number is at most `u16::MAX`.
pub open spec fn report_number_fits(ds: Seq<u8>) -> bool {
    &&& forall|i: int| 0 <= i < ds.len() ==> #[trigger] ds[i] >= 48
    &&& report_number(ds) <= u16::MAX
}

/// Why a cursor report is refused.
#[derive(Clone, Copy, Debug, PartialEq, Eq, Structural)]
pub enum ReportError {
    /// A byte of the report is not ASCII.
    NotAscii,
    /// A number holds a byte below `0` or does not fit in a `u16`.
    BadNumber,
}

/// The screen size that the report `input` gives: the column count from the
/// number after `;`, the row count from the number after `[`.
pub open spec fn cursor_report(input: Seq<u8>) -> Result<Position, ReportError> {
    let sc = scan_report(input);
    if exists|i: int| 0 <= i < input.len() && #[trigger] input[i] >= 128 {
        Err(ReportError::NotAscii)
    } else if report_number_fits(sc.cols) && report_number_fits(sc.rows) {
        Ok(Position(report_number(sc.cols) as u16, report_number(sc.rows) as u16))
    } else {
        Err(ReportError::BadNumber)
    }
}

/// A number with more bytes, none below `0`, is no smaller.
pub proof fn lemma_report_number_grows(ds: Seq<u8>, k: int)
    requires
        0 <= k <= ds.len(),
        forall|i: int| 0 <= i < ds.len() ==> #[trigger] ds[i] >= 48,
    ensures
        0 <= report_number(ds.take(k)) <= report_number(ds),
    decreases ds.len() - k,
{
    if k < ds.len() {
        lemma_report_number_grows(ds, k + 1);
        assert(ds.take(k + 1).drop_last() =~= ds.take(k));
        let t = ds.take(k);
        assert(forall|i: int| 0 <= i < t.len() ==> #[trigger] t[i] == ds[i]);
        lemma_report_number_nonnegative(t);
        assert(ds.take(k + 1).last() == ds[k]);
    } else {
        assert(ds.take(k) =~= ds);
        lemma_report_number_nonnegative(ds);
    }
}

proof fn lemma_report_number_nonnegative(ds: Seq<u8>)
    requires
        forall|i: int| 0 <= i < ds.len() ==> #[trigger] ds[i] >= 48,
    ensures
        report_number(ds) >= 0,
    decreases ds.len(),
{
    if ds.len() > 0 {
        let d = ds.drop_last();
        assert(forall|i: int| 0 <= i < d.len() ==> #[trigger] d[i] == ds[i]);
        lemma_report_number_nonnegative(d);
        assert(ds.last() == ds[ds.len() - 1]);
    }
}

/// The number spelled by `ds`, computed as the terminal's reply is read.
fn report_number_of(ds: &Vec<u8>) -> (r: Option<u16>)
    ensures
        r is Some <==> report_number_fits(ds@),
        r matches Some(v) ==> v == report_number(ds@),
{
    let mut acc: u16 = 0;
    let mut i: usize = 0;
    while i < ds.len()
        invariant
            i <= ds@.len(),
            forall|j: int| 0 <= j < i ==> #[trigger] ds@[j] >= 48,
            acc == report_number(ds@.take(i as int)),
        decreases ds@.len() - i,
    {
        assert(ds@.take(i + 1).drop_last() =~= ds@.take(i as int));
        let b = ds[i];
        if acc > 6553 || b < 48 || (acc * 10) as u32 + (b - 48) as u32 > 65535 {
            proof {
                if forall|j: int| 0 <= j < ds@.len() ==> #[trigger] ds@[j] >= 48 {
                    lemma_report_number_grows(ds@, i + 1);
                }
            }
            return None;
        }
        acc = acc * 10 + (b - 48) as u16;
        i = i + 1;
    }
    assert(ds@.take(ds@.len() as int) =~= ds@);
    Some(acc)
}

/// Reads the terminal's answer to a cursor position request,
/// `ESC [ row ; col R`, as the size of the screen when the cursor stands in
/// its bottom right corner. Bytes before `[` and after `R` are passed over;
/// the column count comes from the number after `;`, the row count from the
/// number after `[`, an empty number counts as 0.
pub fn parse_cursor_report(input: &[u8]) -> (r: Result<Position, ReportError>)
    ensures
        r == cursor_report(input@),
{
    let mut k: usize = 0;
    while k < input.len()
        invariant
            k <= input@.len(),
            forall|j: int| 0 <= j < k ==> #[trigger] input@[j] < 128,
        decreases input@.len() - k,
    {
        if input[k] >= 128 {
            return Err(ReportError::NotAscii);
        }
        k = k + 1;
    }
    let mut field: u8 = 0;
    let mut rows: Vec<u8> = Vec::new();
    let mut cols: Vec<u8> = Vec::new();
    let mut i: usize = 0;
    assert(input@.take(input@.len() as int) =~= input@);
    while i < input.len()
        invariant_except_break
            ({
                let sc = scan_report(input@.take(i as int));
                &&& !sc.ended
                &&& sc.field == field
                &&& sc.rows == rows@
                &&& sc.cols == cols@
            }),
        invariant
            i <= input@.len(),
            input@.take(input@.len() as int) == input@,
        ensures
            scan_report(input@).rows == rows@,
            scan_report(input@).cols == cols@,
        decreases input@.len() - i,
    {
        assert(input@.take(i + 1).drop_last() =~= input@.take(i as int));
        let b = input[i];
        if b == 91 {
            field = 1;
        } else if b == 59 {
            field = 2;
        } else if b == 82 {
            proof {
                lemma_scan_stays_ended(input@, i + 1);
            }
            break;
        } else if field == 1 {
            rows.push(b);
        } else if field == 2 {
            cols.push(b);
        }
        i = i + 1;
    }
    let x = report_number_of(&cols);
    let y = report_number_of(&rows);
    match (x, y) {
        (Some(x), Some(y)) => Ok(Position(x, y)),
        _ => Err(ReportError::BadNumber),
    }
}

/// Once `R` has been read, the bytes after it change nothing.
proof fn lemma_scan_stays_ended(input: Seq<u8>, k: int)
    requires
        0 <= k <= input.len(),
        scan_report(input.take(k)).ended,
    ensures
        scan_report(input) == scan_report(input.take(k)),
    decreases input.len() - k,
{
    if k < input.len() {
        assert(input.take(k + 1).drop_last() =~= input.take(k));
        lemma_scan_stays_ended(input, k + 1);
    } else {
        assert(input.take(k) =~= input);
    }
}

} // verus!
