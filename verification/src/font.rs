use vstd::prelude::*;

use crate::digits::{parse_unsigned, parse_unsigned_spec};
use crate::screen::Output;

verus! {

/// Glyph slots in a font table: one for each encoding below `u16::MAX`.
pub const GLYPH_SLOTS: usize = 65535;

/// Bitmap rows kept for each glyph.
pub const GLYPH_ROWS: usize = 7;

// ---------------------------------------------------------------------------
// Lines of a text, as `str::lines` cuts them
// ---------------------------------------------------------------------------

/// A line that ended in a line feed loses one carriage return before it.
pub open spec fn strip_cr(line: Seq<u8>) -> Seq<u8> {
    if line.len() > 0 && line.last() == 13 {
        line.drop_last()
    } else {
        line
    }
}

/// The bytes after the last line feed of `text`.
pub open spec fn open_line(text: Seq<u8>) -> Seq<u8>
    decreases text.len(),
{
    if text.len() == 0 {
        seq![]
    } else if text.last() == 10 {
        seq![]
    } else {
        open_line(text.drop_last()).push(text.last())
    }
}

/// The lines of `text` that a line feed ends, each without its line feed
/// and without one carriage return before it.
pub open spec fn finished_lines(text: Seq<u8>) -> Seq<Seq<u8>>
    decreases text.len(),
{
    if text.len() == 0 {
        seq![]
    } else if text.last() == 10 {
        finished_lines(text.drop_last()).push(strip_cr(open_line(text.drop_last())))
    } else {
        finished_lines(text.drop_last())
    }
}

/// The lines of `text`: those that a line feed ends, then the bytes after the
/// last line feed if there are any, left as they are.
pub open spec fn text_lines(text: Seq<u8>) -> Seq<Seq<u8>> {
    if open_line(text).len() > 0 {
        finished_lines(text).push(open_line(text))
    } else {
        finished_lines(text)
    }
}

// ---------------------------------------------------------------------------
// The BDF reader
// ---------------------------------------------------------------------------

/// `BITMAP`: the rows of a glyph follow.
pub open spec fn word_bitmap() -> Seq<u8> {
    seq![66u8, 73, 84, 77, 65, 80]
}

/// `ENDCHAR`: the rows of a glyph have ended.
pub open spec fn word_endchar() -> Seq<u8> {
    seq![69u8, 78, 68, 67, 72, 65, 82]
}

/// `ENCODING`: the code of the next glyph follows.
pub open spec fn word_encoding() -> Seq<u8> {
    seq![69u8, 78, 67, 79, 68, 73, 78, 71]
}

/// The line's text before its first space is `ENCODING`.
pub open spec fn is_encoding_line(line: Seq<u8>) -> bool {
    line.len() > 8 && line.take(8) == word_encoding() && line[8] == 32
}

/// What the reader knows between two lines.
pub struct BdfState {
    /// Inside a `BITMAP` ... `ENDCHAR` block.
    pub in_bitmap: bool,
    /// The row of the glyph that the next bitmap line fills.
    pub row: int,
    /// The slot of the glyph that bitmap lines fill.
    pub encoding: int,
    /// The glyph table: `GLYPH_SLOTS` glyphs of `GLYPH_ROWS` rows each.
    pub glyphs: Seq<Seq<u8>>,
}

/// Why a font text is refused.
#[derive(Clone, Copy, Debug, PartialEq, Eq, Structural)]
pub enum BdfError {
    /// A line inside a bitmap block is not a hexadecimal byte.
    BadBitmapRow,
    /// A bitmap line fills a glyph whose encoding has no slot.
    EncodingOutOfRange,
}

/// A glyph with no row lit.
pub open spec fn blank_glyph() -> Seq<u8> {
    seq![0u8, 0, 0, 0, 0, 0, 0]
}

/// The reader before the first line: every glyph blank.
pub open spec fn bdf_start() -> BdfState {
    BdfState {
        in_bitmap: false,
        row: 0,
        encoding: 0,
        glyphs: Seq::new(GLYPH_SLOTS as nat, |i: int| blank_glyph()),
    }
}

/// One line read in state `st`.
pub open spec fn bdf_step(st: BdfState, line: Seq<u8>) -> Result<BdfState, BdfError> {
    if line == word_bitmap() {
        Ok(BdfState { in_bitmap: true, row: 0, encoding: st.encoding, glyphs: st.glyphs })
    } else if line == word_endchar() {
        Ok(BdfState { in_bitmap: false, row: st.row, encoding: st.encoding, glyphs: st.glyphs })
    } else if st.in_bitmap {
        match parse_unsigned_spec(line, 16, 255) {
            None => Err(BdfError::BadBitmapRow),
            Some(v) => if st.encoding < GLYPH_SLOTS {
                Ok(
                    BdfState {
                        in_bitmap: true,
                        row: if st.row < 6 {
                            st.row + 1
                        } else {
                            st.row
                        },
                        encoding: st.encoding,
                        glyphs: st.glyphs.update(
                            st.encoding,
                            st.glyphs[st.encoding].update(st.row, v as u8),
                        ),
                    },
                )
            } else {
                Err(BdfError::EncodingOutOfRange)
            },
        }
    } else if is_encoding_line(line) {
        Ok(
            BdfState {
                in_bitmap: st.in_bitmap,
                row: st.row,
                encoding: match parse_unsigned_spec(line.skip(9), 10, usize::MAX as nat) {
                    Some(n) => n as int,
                    None => 0,
                },
                glyphs: st.glyphs,
            },
        )
    } else {
        Ok(st)
    }
}

/// The lines read in order from the start; the first refusal stops it.
pub open spec fn bdf_read(lines: Seq<Seq<u8>>) -> Result<BdfState, BdfError>
    decreases lines.len(),
{
    if lines.len() == 0 {
        Ok(bdf_start())
    } else {
        match bdf_read(lines.drop_last()) {
            Ok(st) => bdf_step(st, lines.last()),
            Err(e) => Err(e),
        }
    }
}

/// The glyph table that the font text `text` describes, or why it is refused.
pub open spec fn bdf_glyphs(text: Seq<u8>) -> Result<Seq<Seq<u8>>, BdfError> {
    match bdf_read(text_lines(text)) {
        Ok(st) => Ok(st.glyphs),
        Err(e) => Err(e),
    }
}

/// The rows of each glyph, as sequences.
pub open spec fn glyph_rows(v: Seq<[u8; 7]>) -> Seq<Seq<u8>> {
    v.map_values(|g: [u8; 7]| g@)
}

/// A table of bitmap glyphs, one for each encoding below `u16::MAX`.
pub struct FontTable {
    glyphs: Vec<[u8; 7]>,
}

impl View for FontTable {
    type V = Seq<Seq<u8>>;

    closed spec fn view(&self) -> Seq<Seq<u8>> {
        glyph_rows(self.glyphs@)
    }
}

impl FontTable {
    /// The table holds a glyph for every slot.
    pub open spec fn well_formed(&self) -> bool {
        self@.len() == GLYPH_SLOTS
    }

    /// The rows of the glyph with encoding `code`; `None` where there is no
    /// such slot.
    pub fn glyph(&self, code: usize) -> (r: Option<[u8; 7]>)
        ensures
            code < self@.len() ==> (r matches Some(g) && g@ == self@[code as int]),
            code >= self@.len() ==> r is None,
    {
        if code < self.glyphs.len() {
            Some(self.glyphs[code])
        } else {
            None
        }
    }
}

/// The reader's state while it walks the text.
struct Reader {
    in_bitmap: bool,
    row: usize,
    encoding: usize,
    glyphs: Vec<[u8; 7]>,
}

impl Reader {
    spec fn state(&self) -> BdfState {
        BdfState {
            in_bitmap: self.in_bitmap,
            row: self.row as int,
            encoding: self.encoding as int,
            glyphs: glyph_rows(self.glyphs@),
        }
    }

    spec fn inv(&self) -> bool {
        &&& self.row <= 6
        &&& self.glyphs@.len() == GLYPH_SLOTS
    }

    fn new() -> (r: Self)
        ensures
            r.inv(),
            r.state() == bdf_start(),
    {
        let blank: [u8; 7] = [0, 0, 0, 0, 0, 0, 0];
        assert(blank@ =~= blank_glyph());
        let mut glyphs: Vec<[u8; 7]> = Vec::new();
        while glyphs.len() < GLYPH_SLOTS
            invariant
                glyphs@.len() <= GLYPH_SLOTS,
                blank@ == blank_glyph(),
                forall|i: int| 0 <= i < glyphs@.len() ==> (#[trigger] glyphs@[i])@ == blank_glyph(),
            decreases GLYPH_SLOTS - glyphs@.len(),
        {
            glyphs.push(blank);
        }
        let r = Reader { in_bitmap: false, row: 0, encoding: 0, glyphs };
        assert(r.state().glyphs =~= bdf_start().glyphs);
        r
    }

    /// Reads the line `text[start..end]`.
    fn read_line(&mut self, text: &[u8], start: usize, end: usize) -> (r: Result<(), BdfError>)
        requires
            old(self).inv(),
            start <= end <= text@.len(),
        ensures
            final(self).inv(),
            match bdf_step(old(self).state(), text@.subrange(start as int, end as int)) {
                Ok(st) => r is Ok && final(self).state() == st,
                Err(e) => r == Err::<(), BdfError>(e),
            },
    {
        let ghost line = text@.subrange(start as int, end as int);
        let bitmap: [u8; 6] = [66, 73, 84, 77, 65, 80];
        let endchar: [u8; 7] = [69, 78, 68, 67, 72, 65, 82];
        let encoding: [u8; 8] = [69, 78, 67, 79, 68, 73, 78, 71];
        assert(bitmap@ =~= word_bitmap());
        assert(endchar@ =~= word_endchar());
        assert(encoding@ =~= word_encoding());
        if bytes_equal(text, start, end, &bitmap) {
            self.in_bitmap = true;
            self.row = 0;
            Ok(())
        } else if bytes_equal(text, start, end, &endchar) {
            self.in_bitmap = false;
            Ok(())
        } else if self.in_bitmap {
            match parse_unsigned(text, start, end, 16, 255) {
                None => Err(BdfError::BadBitmapRow),
                Some(v) => {
                    if self.encoding < GLYPH_SLOTS {
                        let ghost before = self.glyphs@;
                        let mut g = self.glyphs[self.encoding];
                        g[self.row] = v as u8;
                        self.glyphs.set(self.encoding, g);
                        if self.row < 6 {
                            self.row = self.row + 1;
                        }
                        assert(glyph_rows(self.glyphs@) =~= glyph_rows(before).update(
                            self.encoding as int,
                            glyph_rows(before)[self.encoding as int].update(
                                old(self).row as int,
                                v as u8,
                            ),
                        ));
                        Ok(())
                    } else {
                        Err(BdfError::EncodingOutOfRange)
                    }
                },
            }
        } else if end - start > 8 && bytes_equal(text, start, start + 8, &encoding) && text[start
            + 8] == 32 {
            assert(line.take(8) =~= text@.subrange(start as int, start + 8));
            assert(line.skip(9) =~= text@.subrange(start + 9, end as int));
            self.encoding =
            match parse_unsigned(text, start + 9, end, 10, usize::MAX) {
                Some(n) => n,
                None => 0,
            };
            Ok(())
        } else {
            proof {
                if is_encoding_line(line) {
                    assert(line.take(8) =~= text@.subrange(start as int, start + 8));
                }
            }
            Ok(())
        }
    }
}

/// Whether `text[start..end]` is exactly `word`.
fn bytes_equal(text: &[u8], start: usize, end: usize, word: &[u8]) -> (r: bool)
    requires
        start <= end <= text@.len(),
    ensures
        r == (text@.subrange(start as int, end as int) == word@),
{
    if end - start != word.len() {
        return false;
    }
    let mut k: usize = 0;
    while k < word.len()
        invariant
            start <= end <= text@.len(),
            end - start == word@.len(),
            k <= word@.len(),
            forall|j: int| 0 <= j < k ==> text@[start + j] == word@[j],
        decreases word@.len() - k,
    {
        if text[start + k] != word[k] {
            assert(text@.subrange(start as int, end as int)[k as int] != word@[k as int]);
            return false;
        }
        k = k + 1;
    }
    assert(text@.subrange(start as int, end as int) =~= word@);
    true
}

/// Reads a font in the Bitmap Distribution Format: for each line, `BITMAP`
/// opens a glyph's rows, `ENDCHAR` closes them, each line in between is one
/// hexadecimal row (the seventh and later rows all land in the last one), and
/// a line `ENCODING n` outside the rows selects the slot that they fill (slot 0
/// where `n` is no decimal number). Every other line is passed over.
pub fn parse_bdf(text: &[u8]) -> (r: Result<FontTable, BdfError>)
    ensures
        match (r, bdf_glyphs(text@)) {
            (Ok(table), Ok(glyphs)) => table@ == glyphs && table.well_formed(),
            (Err(e), Err(f)) => e == f,
            _ => false,
        },
{
    let mut reader = Reader::new();
    let mut failure: Option<BdfError> = None;
    let mut line_start: usize = 0;
    let mut i: usize = 0;
    while i < text.len()
        invariant
            reader.inv(),
            line_start <= i <= text@.len(),
            open_line(text@.take(i as int)) == text@.subrange(line_start as int, i as int),
            match bdf_read(finished_lines(text@.take(i as int))) {
                Ok(st) => failure is None && reader.state() == st,
                Err(e) => failure == Some(e),
            },
        decreases text@.len() - i,
    {
        let ghost prefix = text@.take(i as int);
        let ghost next = text@.take(i + 1);
        assert(next.drop_last() =~= prefix);
        assert(next.last() == text@[i as int]);
        if text[i] == 10 {
            let ghost line = strip_cr(open_line(prefix));
            let ghost done = finished_lines(prefix);
            assert(finished_lines(next) == done.push(line));
            assert(done.push(line).drop_last() =~= done);
            if failure.is_none() {
                let mut end = i;
                if end > line_start && text[end - 1] == 13 {
                    end = end - 1;
                }
                assert(text@.subrange(line_start as int, end as int) =~= line);
                match reader.read_line(text, line_start, end) {
                    Ok(()) => {},
                    Err(e) => {
                        failure = Some(e);
                    },
                }
            }
            line_start = i + 1;
            assert(open_line(next) =~= text@.subrange(line_start as int, i + 1));
        } else {
            assert(open_line(next) =~= text@.subrange(line_start as int, i + 1));
        }
        i = i + 1;
    }
    assert(text@.take(text@.len() as int) =~= text@);
    let ghost done = finished_lines(text@);
    if failure.is_none() && line_start < text.len() {
        let ghost line = open_line(text@);
        assert(done.push(line).drop_last() =~= done);
        match reader.read_line(text, line_start, text.len()) {
            Ok(()) => {},
            Err(e) => {
                failure = Some(e);
            },
        }
    } else {
        proof {
            if open_line(text@).len() > 0 {
                let line = open_line(text@);
                assert(done.push(line).drop_last() =~= done);
            }
        }
    }
    match failure {
        Some(e) => Err(e),
        None => Ok(FontTable { glyphs: reader.glyphs }),
    }
}

/// A state that the reader can reach: the full table of seven-row glyphs, and
/// a row within the glyph.
pub open spec fn bdf_state_shape(st: BdfState) -> bool {
    &&& st.glyphs.len() == GLYPH_SLOTS
    &&& forall|i: int| 0 <= i < st.glyphs.len() ==> (#[trigger] st.glyphs[i]).len() == GLYPH_ROWS
    &&& 0 <= st.row <= 6
    &&& st.encoding >= 0
}

/// Every state that reading lines reaches has that shape.
pub proof fn lemma_bdf_read_shape(lines: Seq<Seq<u8>>)
    ensures
        bdf_read(lines) matches Ok(st) ==> bdf_state_shape(st),
    decreases lines.len(),
{
    if lines.len() > 0 {
        lemma_bdf_read_shape(lines.drop_last());
        if let Ok(st) = bdf_read(lines.drop_last()) {
            if let Ok(next) = bdf_step(st, lines.last()) {
                assert forall|i: int| 0 <= i < next.glyphs.len() implies (
                #[trigger] next.glyphs[i]).len() == GLYPH_ROWS by {
                    if st.in_bitmap && i == st.encoding {
                        assert(next.glyphs[i].len() == st.glyphs[i].len());
                    }
                }
            }
        }
    }
}

/// A line that spells a hexadecimal byte is neither `BITMAP` nor `ENDCHAR`.
proof fn lemma_row_is_no_keyword(line: Seq<u8>)
    requires
        parse_unsigned_spec(line, 16, 255) is Some,
    ensures
        line != word_bitmap(),
        line != word_endchar(),
{
    if line == word_bitmap() {
        assert(unsigned_digits_of_keyword(word_bitmap()));
    }
    if line == word_endchar() {
        assert(unsigned_digits_of_keyword(word_endchar()));
    }
}

/// The keywords do not spell hexadecimal numbers: their second letter is no
/// hexadecimal digit.
spec fn unsigned_digits_of_keyword(word: Seq<u8>) -> bool {
    parse_unsigned_spec(word, 16, 255) is None
}

/// Reading one more line after `lines` is one step of the reader.
proof fn lemma_bdf_read_push(lines: Seq<Seq<u8>>, line: Seq<u8>)
    ensures
        bdf_read(lines.push(line)) == match bdf_read(lines) {
            Ok(st) => bdf_step(st, line),
            Err(e) => Err(e),
        },
{
    assert(lines.push(line).drop_last() =~= lines);
}

/// The reader after the first `k` rows of a glyph block for slot `n`.
spec fn rows_read(st: BdfState, n: int, values: Seq<u8>, k: int) -> BdfState {
    BdfState {
        in_bitmap: true,
        row: if k < 7 {
            k
        } else {
            6
        },
        encoding: n,
        glyphs: st.glyphs.update(n, values.take(k) + st.glyphs[n].skip(k)),
    }
}

/// Reading the rows of a glyph block one after another.
proof fn lemma_rows_fill(
    prefix: Seq<Seq<u8>>,
    st: BdfState,
    n: int,
    rows: Seq<Seq<u8>>,
    values: Seq<u8>,
    k: int,
)
    requires
        0 <= k <= 7,
        bdf_state_shape(st),
        0 <= n < GLYPH_SLOTS,
        rows.len() == GLYPH_ROWS,
        values.len() == GLYPH_ROWS,
        forall|j: int|
            0 <= j < GLYPH_ROWS ==> parse_unsigned_spec(#[trigger] rows[j], 16, 255) == Some(
                values[j] as nat,
            ),
        bdf_read(prefix + rows.take(k)) == Ok::<BdfState, BdfError>(rows_read(st, n, values, k)),
    ensures
        bdf_read(prefix + rows) == Ok::<BdfState, BdfError>(rows_read(st, n, values, 7)),
    decreases 7 - k,
{
    if k < 7 {
        let prev = rows_read(st, n, values, k);
        lemma_row_is_no_keyword(rows[k]);
        lemma_bdf_read_push(prefix + rows.take(k), rows[k]);
        assert(prefix + rows.take(k + 1) =~= (prefix + rows.take(k)).push(rows[k]));
        assert(st.glyphs[n].len() == 7);
        assert(prev.glyphs[n].update(k, values[k]) =~= values.take(k + 1) + st.glyphs[n].skip(
            k + 1,
        ));
        assert(prev.glyphs.update(n, prev.glyphs[n].update(k, values[k])) =~= rows_read(
            st,
            n,
            values,
            k + 1,
        ).glyphs);
        lemma_rows_fill(prefix, st, n, rows, values, k + 1);
    } else {
        assert(rows.take(k) =~= rows);
    }
}

/// A glyph block, `ENCODING n`, `BITMAP`, seven rows and `ENDCHAR`, read
/// outside any other block, puts the seven rows into slot `n` and leaves every
/// other slot as it was.
pub proof fn lemma_glyph_block_fills_slot(
    before: Seq<Seq<u8>>,
    encoding_line: Seq<u8>,
    n: nat,
    rows: Seq<Seq<u8>>,
    values: Seq<u8>,
)
    requires
        bdf_read(before) matches Ok(st) && !st.in_bitmap,
        is_encoding_line(encoding_line),
        parse_unsigned_spec(encoding_line.skip(9), 10, usize::MAX as nat) == Some(n),
        n < GLYPH_SLOTS,
        rows.len() == GLYPH_ROWS,
        values.len() == GLYPH_ROWS,
        forall|k: int|
            0 <= k < GLYPH_ROWS ==> parse_unsigned_spec(#[trigger] rows[k], 16, 255) == Some(
                values[k] as nat,
            ),
    ensures
        ({
            let st = bdf_read(before)->Ok_0;
            let block = seq![encoding_line, word_bitmap()] + rows + seq![word_endchar()];
            &&& bdf_read(before + block) matches Ok(after)
            &&& after.glyphs == st.glyphs.update(n as int, values)
            &&& !after.in_bitmap
            &&& after.encoding == n
        }),
{
    let st = bdf_read(before)->Ok_0;
    lemma_bdf_read_shape(before);
    assert(encoding_line != word_bitmap() && encoding_line != word_endchar()) by {
        assert(encoding_line.len() > 8);
    }
    let block = seq![encoding_line, word_bitmap()] + rows + seq![word_endchar()];
    lemma_bdf_read_push(before, encoding_line);
    let s1 = BdfState { in_bitmap: false, row: st.row, encoding: n as int, glyphs: st.glyphs };
    assert(bdf_read(before.push(encoding_line)) == Ok::<BdfState, BdfError>(s1));
    let prefix = before.push(encoding_line).push(word_bitmap());
    lemma_bdf_read_push(before.push(encoding_line), word_bitmap());
    assert(values.take(0) + st.glyphs[n as int].skip(0) =~= st.glyphs[n as int]);
    assert(st.glyphs.update(n as int, values.take(0) + st.glyphs[n as int].skip(0)) =~= st.glyphs);
    assert(prefix + rows.take(0) =~= prefix);
    lemma_rows_fill(prefix, st, n as int, rows, values, 0);
    let last = rows_read(st, n as int, values, 7);
    lemma_bdf_read_push(prefix + rows, word_endchar());
    assert(before + block =~= (prefix + rows).push(word_endchar()));
    assert(values.take(7) + st.glyphs[n as int].skip(7) =~= values);
}

// ---------------------------------------------------------------------------
// Drawing glyphs with half blocks
// ---------------------------------------------------------------------------

/// A terminal cell that shows two pixels, one above the other.
pub open spec fn half_block(high: u8, low: u8) -> Output {
    if high == 0 {
        if low == 0 {
            Output::Blank
        } else {
            Output::LowerHalf
        }
    } else {
        if low == 0 {
            Output::UpperHalf
        } else {
            Output::FullBlock
        }
    }
}

/// The cell of glyph `g` in line `pair` (rows `2 * pair` and `2 * pair + 1`;
/// the last line has no lower row) at bit `bit` of those rows.
pub open spec fn glyph_cell(g: Seq<u8>, pair: int, bit: u8) -> Output {
    let high = (g[2 * pair] >> bit) & 1u8;
    let low = if pair == 3 {
        0u8
    } else {
        (g[2 * pair + 1] >> bit) & 1u8
    };
    half_block(high, low)
}

/// One line of a glyph: its eight cells from the highest bit down, then the
/// step to the next line.
pub open spec fn glyph_line(g: Seq<u8>, pair: int) -> Seq<Output> {
    Seq::new(8, |k: int| glyph_cell(g, pair, (7 - k) as u8)).push(Output::RowEnd)
}

/// A glyph drawn in four lines, then the step to the next glyph's place.
pub open spec fn glyph_picture(g: Seq<u8>) -> Seq<Output> {
    (glyph_line(g, 0) + glyph_line(g, 1) + glyph_line(g, 2) + glyph_line(g, 3)).push(
        Output::GlyphEnd,
    )
}

/// The glyphs of `text` drawn one after another; `None` where a character
/// has no slot in the table.
pub open spec fn text_picture(table: Seq<Seq<u8>>, text: Seq<char>) -> Option<Seq<Output>>
    decreases text.len(),
{
    if text.len() == 0 {
        Some(seq![])
    } else {
        match text_picture(table, text.drop_last()) {
            Some(p) => if (text.last() as u32) < GLYPH_SLOTS {
                Some(p + glyph_picture(table[(text.last() as u32) as int]))
            } else {
                None
            },
            None => None,
        }
    }
}

/// The picture of `text`, then the cursor back to the top left corner.
pub open spec fn banner_picture(table: Seq<Seq<u8>>, text: Seq<char>) -> Option<Seq<Output>> {
    match text_picture(table, text) {
        Some(p) => Some(p.push(Output::Home)),
        None => None,
    }
}

/// The cell for two pixels that are each 0 or 1.
fn half_block_of(high: u8, low: u8) -> (o: Output)
    requires
        high <= 1,
        low <= 1,
    ensures
        o == half_block(high, low),
{
    match (high, low) {
        (0, 0) => Output::Blank,
        (0, _) => Output::LowerHalf,
        (_, 0) => Output::UpperHalf,
        (_, _) => Output::FullBlock,
    }
}

/// Appends the picture of glyph `g` to `out`.
fn draw_glyph(g: &[u8; 7], out: &mut Vec<Output>)
    ensures
        final(out)@ == old(out)@ + glyph_picture(g@),
{
    let ghost base = old(out)@;
    let mut pair: usize = 0;
    while pair < 4
        invariant
            pair <= 4,
            out@ == base + if pair == 0 {
                seq![]
            } else if pair == 1 {
                glyph_line(g@, 0)
            } else if pair == 2 {
                glyph_line(g@, 0) + glyph_line(g@, 1)
            } else if pair == 3 {
                glyph_line(g@, 0) + glyph_line(g@, 1) + glyph_line(g@, 2)
            } else {
                glyph_line(g@, 0) + glyph_line(g@, 1) + glyph_line(g@, 2) + glyph_line(g@, 3)
            },
        decreases 4 - pair,
    {
        let ghost line_base = out@;
        let mut k: usize = 0;
        while k < 8
            invariant
                pair < 4,
                k <= 8,
                out@ == line_base + Seq::new(
                    8,
                    |k: int| glyph_cell(g@, pair as int, (7 - k) as u8),
                ).take(k as int),
            decreases 8 - k,
        {
            let bit: u8 = 7 - k as u8;
            let upper = g[2 * pair];
            let high = (upper >> bit) & 1u8;
            assert(high <= 1) by (bit_vector)
                requires
                    high == (upper >> bit) & 1u8,
            ;
            let low = if pair == 3 {
                0u8
            } else {
                let lower = g[2 * pair + 1];
                let l = (lower >> bit) & 1u8;
                assert(l <= 1) by (bit_vector)
                    requires
                        l == (lower >> bit) & 1u8,
                ;
                l
            };
            let cell = half_block_of(high, low);
            out.push(cell);
            proof {
                let cells = Seq::new(8, |k: int| glyph_cell(g@, pair as int, (7 - k) as u8));
                assert(cells[k as int] == cell);
                assert(cells.take(k + 1) =~= cells.take(k as int).push(cell));
            }
            k = k + 1;
        }
        out.push(Output::RowEnd);
        proof {
            let cells = Seq::new(8, |k: int| glyph_cell(g@, pair as int, (7 - k) as u8));
            assert(cells.take(8) =~= cells);
        }
        pair = pair + 1;
        assert(out@ =~= base + if pair == 1 {
            glyph_line(g@, 0)
        } else if pair == 2 {
            glyph_line(g@, 0) + glyph_line(g@, 1)
        } else if pair == 3 {
            glyph_line(g@, 0) + glyph_line(g@, 1) + glyph_line(g@, 2)
        } else {
            glyph_line(g@, 0) + glyph_line(g@, 1) + glyph_line(g@, 2) + glyph_line(g@, 3)
        });
    }
    out.push(Output::GlyphEnd);
    assert(out@ =~= base + glyph_picture(g@));
}

/// Draws `text` with the glyphs of `table`: each glyph in four lines of
/// half blocks beside the one before it, then the cursor back to the top left
/// corner. `None` where a character's code has no slot in the table.
pub fn draw_text(table: &FontTable, text: &[char]) -> (r: Option<Vec<Output>>)
    requires
        table.well_formed(),
    ensures
        match (r, banner_picture(table@, text@)) {
            (Some(out), Some(p)) => out@ == p,
            (None, None) => true,
            _ => false,
        },
{
    let mut out: Vec<Output> = Vec::new();
    let mut i: usize = 0;
    while i < text.len()
        invariant
            i <= text@.len(),
            table.well_formed(),
            text_picture(table@, text@.take(i as int)) == Some(out@),
        decreases text@.len() - i,
    {
        let ghost next = text@.take(i + 1);
        assert(next.drop_last() =~= text@.take(i as int));
        let c = text[i];
        assert(c == next.last());
        let code = c as u32;
        if code >= 65535 {
            assert(text_picture(table@, next) is None);
            proof {
                lemma_text_picture_none_extends(table@, text@, i + 1);
            }
            return None;
        }
        match table.glyph(code as usize) {
            Some(g) => {
                draw_glyph(&g, &mut out);
            },
            None => {},
        }
        i = i + 1;
    }
    assert(text@.take(text@.len() as int) =~= text@);
    out.push(Output::Home);
    Some(out)
}

/// Each glyph takes 37 outputs: four lines of eight cells and a line end,
/// then the step to the next glyph.
pub proof fn lemma_picture_size(table: Seq<Seq<u8>>, text: Seq<char>)
    ensures
        text_picture(table, text) matches Some(p) ==> p.len() == 37 * text.len(),
        banner_picture(table, text) matches Some(p) ==> p.len() == 37 * text.len() + 1,
    decreases text.len(),
{
    if text.len() > 0 {
        lemma_picture_size(table, text.drop_last());
    }
}

/// Characters are drawn left to right in the order of the text: where the
/// text has a picture, its outputs `37 * i .. 37 * i + 37` are the picture of
/// the glyph of `text[i]`, and the banner ends with the cursor going home.
pub proof fn lemma_picture_in_text_order(table: Seq<Seq<u8>>, text: Seq<char>, i: int)
    requires
        0 <= i < text.len(),
    ensures
        text_picture(table, text) matches Some(p) ==> p.subrange(37 * i, 37 * i + 37)
            == glyph_picture(table[(text[i] as u32) as int]),
        banner_picture(table, text) matches Some(p) ==> {
            &&& p.subrange(37 * i, 37 * i + 37) == glyph_picture(table[(text[i] as u32) as int])
            &&& p.last() == Output::Home
        },
    decreases text.len(),
{
    let prev = text.drop_last();
    lemma_picture_size(table, prev);
    if let Some(p) = text_picture(table, text) {
        let q = text_picture(table, prev)->Some_0;
        let g = glyph_picture(table[(text.last() as u32) as int]);
        assert(p == q + g);
        assert(q.len() == 37 * prev.len());
        if i < text.len() - 1 {
            lemma_picture_in_text_order(table, prev, i);
            assert(prev[i] == text[i]);
            assert(p.subrange(37 * i, 37 * i + 37) =~= q.subrange(37 * i, 37 * i + 37));
        } else {
            assert(g.len() == 37);
            assert(p.subrange(37 * i, 37 * i + 37) =~= g);
        }
        let b = p.push(Output::Home);
        assert(b.subrange(37 * i, 37 * i + 37) =~= p.subrange(37 * i, 37 * i + 37));
    }
}

/// Once a prefix of the text has no picture, the whole text has none.
proof fn lemma_text_picture_none_extends(table: Seq<Seq<u8>>, text: Seq<char>, k: int)
    requires
        0 <= k <= text.len(),
        text_picture(table, text.take(k)) is None,
    ensures
        text_picture(table, text) is None,
    decreases text.len() - k,
{
    if k < text.len() {
        assert(text.take(k + 1).drop_last() =~= text.take(k));
        lemma_text_picture_none_extends(table, text, k + 1);
    } else {
        assert(text.take(k) =~= text);
    }
}

} // verus!
