//! The table that an export writes: one row to the frame, one column to the
//! channel, the frame's time first.

use vstd::prelude::*;
use crate::package::Value;
use crate::telemetry::{DataPoint, DataPointView, Frame, FrameView, data_points_view};

verus! {

/// How the time of a frame is written in the first column of its row: date
/// and time of day, to the millisecond. The words in brackets are those of
/// the `time` crate's format descriptions.
pub const ROW_TIME_FORMAT: &'static str =
    "[year]-[month]-[day]T[hour]:[minute]:[second].[subsecond digits:3]";

/// One cell of the table.
#[derive(Clone, Copy, Debug, PartialEq)]
pub enum Cell {
    /// The time of the row's frame.
    Timestamp(time::OffsetDateTime),
    /// The sample of the column's channel in the row's frame.
    Number(Value),
    /// The row's frame has no sample of the column's channel.
    Empty,
}

/// The recorded frames laid out as rows and columns.
#[derive(Debug, PartialEq)]
pub struct Table {
    /// The names of the columns.
    pub headers: Vec<String>,
    /// One row to the frame, each with one cell to the column.
    pub rows: Vec<Vec<Cell>>,
}

/// A [`Table`] as contracts see it.
pub struct TableView {
    pub headers: Seq<Seq<char>>,
    pub rows: Seq<Seq<Cell>>,
}

/// Texts by their characters.
pub open spec fn texts_view(texts: Seq<String>) -> Seq<Seq<char>> {
    Seq::new(texts.len(), |i: int| texts[i]@)
}

/// Rows by their cells.
pub open spec fn rows_view(rows: Seq<Vec<Cell>>) -> Seq<Seq<Cell>> {
    Seq::new(rows.len(), |i: int| rows[i]@)
}

/// Frames as contracts see them.
pub open spec fn frames_view(frames: Seq<Frame>) -> Seq<FrameView> {
    Seq::new(frames.len(), |i: int| frames[i]@)
}

impl View for Table {
    type V = TableView;

    open spec fn view(&self) -> TableView {
        TableView { headers: texts_view(self.headers@), rows: rows_view(self.rows@) }
    }
}

/// The columns known after `points` were looked at in order: each name that
/// was not known yet is added at the end.
pub open spec fn observe(known: Seq<Seq<char>>, points: Seq<DataPointView>) -> Seq<Seq<char>>
    decreases points.len(),
{
    if points.len() == 0 {
        known
    } else {
        let seen = observe(known, points.drop_last());
        if seen.contains(points.last().name) {
            seen
        } else {
            seen.push(points.last().name)
        }
    }
}

/// The channels of the frames: every name that occurs, once, in the order
/// of first occurrence.
pub open spec fn channels(frames: Seq<FrameView>) -> Seq<Seq<char>>
    decreases frames.len(),
{
    if frames.len() == 0 {
        Seq::empty()
    } else {
        observe(channels(frames.drop_last()), frames.last().data_points)
    }
}

/// The cell of channel `name` in a frame with these data points: the sample
/// of the last of them that bears the name, or the empty cell.
pub open spec fn cell_of(points: Seq<DataPointView>, name: Seq<char>) -> Cell
    decreases points.len(),
{
    if points.len() == 0 {
        Cell::Empty
    } else if points.last().name == name {
        Cell::Number(points.last().value)
    } else {
        cell_of(points.drop_last(), name)
    }
}

/// The row of `frame` in a table with these channel columns.
pub open spec fn row_of(frame: FrameView, columns: Seq<Seq<char>>) -> Seq<Cell> {
    seq![Cell::Timestamp(frame.timestamp)] + Seq::new(
        columns.len(),
        |j: int| cell_of(frame.data_points, columns[j]),
    )
}

/// The table of the frames.
pub open spec fn table_of(frames: Seq<FrameView>) -> TableView {
    TableView {
        headers: seq!["timestamp"@] + channels(frames),
        rows: Seq::new(frames.len(), |i: int| row_of(frames[i], channels(frames))),
    }
}

/// Whether `name` is among `columns`.
fn is_known(columns: &Vec<String>, name: &String) -> (found: bool)
    ensures
        found == texts_view(columns@).contains(name@),
{
    let mut i: usize = 0;
    while i < columns.len()
        invariant
            i <= columns.len(),
            forall|k: int| 0 <= k < i ==> texts_view(columns@)[k] != name@,
        decreases columns.len() - i,
    {
        if columns[i] == *name {
            assert(texts_view(columns@)[i as int] == name@);
            return true;
        }
        i = i + 1;
    }
    false
}

/// The cell of channel `name` in a frame with these data points.
fn find_cell(points: &Vec<DataPoint>, name: &String) -> (cell: Cell)
    ensures
        cell == cell_of(data_points_view(points@), name@),
{
    let ghost all = data_points_view(points@);
    let mut i: usize = points.len();
    assert(all.take(i as int) =~= all);
    while i > 0
        invariant
            i <= points.len(),
            all == data_points_view(points@),
            cell_of(all, name@) == cell_of(all.take(i as int), name@),
        decreases i,
    {
        let ghost here = all.take(i as int);
        assert(here.last() == points@[i - 1]@);
        assert(here.drop_last() =~= all.take(i - 1));
        if points[i - 1].name == *name {
            return Cell::Number(points[i - 1].value);
        }
        i = i - 1;
    }
    Cell::Empty
}

/// The channels of the frames, in the order of first occurrence.
fn find_channels(frames: &Vec<Frame>) -> (columns: Vec<String>)
    ensures
        texts_view(columns@) == channels(frames_view(frames@)),
{
    let ghost all = frames_view(frames@);
    let mut columns: Vec<String> = Vec::new();
    let mut i: usize = 0;
    assert(all.take(0) =~= Seq::<FrameView>::empty());
    assert(texts_view(columns@) =~= Seq::<Seq<char>>::empty());
    while i < frames.len()
        invariant
            i <= frames.len(),
            all == frames_view(frames@),
            texts_view(columns@) == channels(all.take(i as int)),
        decreases frames.len() - i,
    {
        let frame = &frames[i];
        let ghost points = frame@.data_points;
        let ghost start = texts_view(columns@);
        let mut j: usize = 0;
        assert(points.take(0) =~= Seq::<DataPointView>::empty());
        while j < frame.data_points.len()
            invariant
                j <= frame.data_points.len(),
                points == data_points_view(frame.data_points@),
                texts_view(columns@) == observe(start, points.take(j as int)),
            decreases frame.data_points.len() - j,
        {
            let ghost before = texts_view(columns@);
            let ghost here = points.take(j + 1);
            assert(here.last() == frame.data_points@[j as int]@);
            assert(here.drop_last() =~= points.take(j as int));
            if !is_known(&columns, &frame.data_points[j].name) {
                columns.push(frame.data_points[j].name.clone());
                assert(texts_view(columns@) =~= before.push(here.last().name));
            }
            j = j + 1;
        }
        proof {
            assert(points.take(points.len() as int) =~= points);
            let early = all.take(i + 1);
            assert(early.last() == frames@[i as int]@);
            assert(early.drop_last() =~= all.take(i as int));
        }
        i = i + 1;
    }
    assert(all.take(all.len() as int) =~= all);
    columns
}

/// The row of `frame` in a table with these channel columns.
fn build_row(frame: &Frame, columns: &Vec<String>) -> (row: Vec<Cell>)
    ensures
        row@ == row_of(frame@, texts_view(columns@)),
{
    let mut row: Vec<Cell> = Vec::new();
    row.push(Cell::Timestamp(frame.timestamp));
    let mut j: usize = 0;
    while j < columns.len()
        invariant
            j <= columns.len(),
            row@.len() == j + 1,
            row@[0] == Cell::Timestamp(frame.timestamp),
            forall|k: int|
                0 <= k < j ==> #[trigger] row@[k + 1] == cell_of(
                    frame@.data_points,
                    texts_view(columns@)[k],
                ),
        decreases columns.len() - j,
    {
        let cell = find_cell(&frame.data_points, &columns[j]);
        row.push(cell);
        j = j + 1;
    }
    proof {
        let wanted = row_of(frame@, texts_view(columns@));
        assert forall|m: int| 0 <= m < row@.len() implies row@[m] == wanted[m] by {
            if m > 0 {
                assert(row@[(m - 1) + 1] == cell_of(
                    frame@.data_points,
                    texts_view(columns@)[m - 1],
                ));
            }
        }
        assert(row@ =~= wanted);
    }
    row
}

/// Lays the frames out as a table. The first column is the time of the
/// frame. A column follows for each channel that occurs in any of the
/// frames, in the order of first occurrence. A frame without a sample of a
/// channel has an empty cell there.
pub fn build_table(frames: &Vec<Frame>) -> (table: Table)
    ensures
        table@ == table_of(frames_view(frames@)),
{
    let ghost all = frames_view(frames@);
    let columns = find_channels(frames);
    let mut headers: Vec<String> = Vec::new();
    headers.push("timestamp".to_owned());
    let mut j: usize = 0;
    while j < columns.len()
        invariant
            j <= columns.len(),
            headers@.len() == j + 1,
            headers@[0]@ == "timestamp"@,
            forall|k: int| 0 <= k < j ==> (#[trigger] headers@[k + 1])@ == columns@[k]@,
        decreases columns.len() - j,
    {
        headers.push(columns[j].clone());
        j = j + 1;
    }
    let mut rows: Vec<Vec<Cell>> = Vec::new();
    let mut i: usize = 0;
    while i < frames.len()
        invariant
            i <= frames.len(),
            rows@.len() == i,
            all == frames_view(frames@),
            texts_view(columns@) == channels(all),
            forall|k: int| 0 <= k < i ==> (#[trigger] rows@[k])@ == row_of(all[k], channels(all)),
        decreases frames.len() - i,
    {
        let row = build_row(&frames[i], &columns);
        rows.push(row);
        i = i + 1;
    }
    let table = Table { headers, rows };
    proof {
        let wanted = seq!["timestamp"@] + channels(all);
        assert forall|m: int| 0 <= m < headers@.len() implies table@.headers[m] == wanted[m] by {
            if m > 0 {
                assert(headers@[(m - 1) + 1]@ == columns@[m - 1]@);
                assert(texts_view(columns@)[m - 1] == columns@[m - 1]@);
            }
        }
        assert(table@.headers =~= wanted);
        assert(table@.rows =~= table_of(all).rows);
    }
    table
}

/// Whether one of `points` bears `name`.
pub open spec fn sampled(points: Seq<DataPointView>, name: Seq<char>) -> bool {
    exists|j: int| 0 <= j < points.len() && #[trigger] points[j].name == name
}

/// Whether a data point of one of `frames` bears `name`.
pub open spec fn occurs(frames: Seq<FrameView>, name: Seq<char>) -> bool {
    exists|i: int| 0 <= i < frames.len() && sampled(#[trigger] frames[i].data_points, name)
}

/// Looking at more data points keeps the columns that were known, in their
/// places, adds exactly the names that were not known, and adds none twice.
pub proof fn lemma_observe(known: Seq<Seq<char>>, points: Seq<DataPointView>)
    requires
        known.no_duplicates(),
    ensures
        observe(known, points).no_duplicates(),
        known.len() <= observe(known, points).len(),
        observe(known, points).take(known.len() as int) == known,
        forall|name: Seq<char>|
            observe(known, points).contains(name) <==> known.contains(name) || sampled(
                points,
                name,
            ),
    decreases points.len(),
{
    let after = observe(known, points);
    if points.len() == 0 {
        assert(after.take(known.len() as int) =~= known);
        assert forall|name: Seq<char>| !sampled(points, name) by {}
    } else {
        let earlier = points.drop_last();
        let newest = points.last().name;
        let seen = observe(known, earlier);
        lemma_observe(known, earlier);
        assert(after.take(known.len() as int) =~= seen.take(known.len() as int));
        assert forall|name: Seq<char>|
            after.contains(name) <==> known.contains(name) || sampled(points, name) by {
            if sampled(earlier, name) {
                let j = choose|j: int| 0 <= j < earlier.len() && earlier[j].name == name;
                assert(points[j].name == name);
            }
            if sampled(points, name) && !sampled(earlier, name) {
                let j = choose|j: int| 0 <= j < points.len() && points[j].name == name;
                if j < earlier.len() {
                    assert(earlier[j].name == name);
                }
                assert(name == newest);
            }
            if name == newest {
                assert(points[points.len() - 1].name == name);
            }
            if seen.contains(newest) {
            } else {
                if seen.contains(name) {
                    let k = choose|k: int| 0 <= k < seen.len() && seen[k] == name;
                    assert(after[k] == name);
                }
                assert(after[seen.len() as int] == newest);
                if after.contains(name) {
                    let k = choose|k: int| 0 <= k < after.len() && after[k] == name;
                    if k < seen.len() {
                        assert(seen[k] == name);
                    }
                }
            }
        }
    }
}

/// Dynamic columns: the channel columns are the names that occur in any of
/// the frames, each once.
pub proof fn lemma_columns_are_the_union(frames: Seq<FrameView>)
    ensures
        channels(frames).no_duplicates(),
        forall|name: Seq<char>| channels(frames).contains(name) <==> occurs(frames, name),
    decreases frames.len(),
{
    if frames.len() == 0 {
        assert forall|name: Seq<char>| !occurs(frames, name) by {}
    } else {
        let earlier = frames.drop_last();
        let newest = frames.last().data_points;
        lemma_columns_are_the_union(earlier);
        lemma_observe(channels(earlier), newest);
        assert forall|name: Seq<char>| channels(frames).contains(name) <==> occurs(
            frames,
            name,
        ) by {
            if occurs(earlier, name) {
                let i = choose|i: int|
                    0 <= i < earlier.len() && sampled(earlier[i].data_points, name);
                assert(sampled(frames[i].data_points, name));
            }
            if sampled(newest, name) {
                assert(sampled(frames[frames.len() - 1].data_points, name));
            }
            if occurs(frames, name) {
                let i = choose|i: int|
                    0 <= i < frames.len() && sampled(frames[i].data_points, name);
                if i < earlier.len() {
                    assert(sampled(earlier[i].data_points, name));
                }
            }
        }
    }
}

/// First seen, first placed: recording one more frame keeps the columns
/// that there were, in their places.
pub proof fn lemma_columns_grow(frames: Seq<FrameView>, frame: FrameView)
    ensures
        channels(frames).len() <= channels(frames.push(frame)).len(),
        channels(frames.push(frame)).take(channels(frames).len() as int) == channels(frames),
{
    let longer = frames.push(frame);
    assert(longer.drop_last() =~= frames);
    lemma_columns_are_the_union(frames);
    lemma_observe(channels(frames), frame.data_points);
}

/// A cell is empty exactly where the frame has no sample of the channel.
pub proof fn lemma_empty_cell(points: Seq<DataPointView>, name: Seq<char>)
    ensures
        cell_of(points, name) == Cell::Empty <==> !sampled(points, name),
        cell_of(points, name) != Cell::Empty ==> exists|j: int|
            0 <= j < points.len() && points[j].name == name && cell_of(points, name)
                == Cell::Number(points[j].value),
    decreases points.len(),
{
    if points.len() == 0 {
    } else if points.last().name == name {
        assert(points[points.len() - 1].name == name);
    } else {
        let earlier = points.drop_last();
        lemma_empty_cell(earlier, name);
        if sampled(earlier, name) {
            let j = choose|j: int| 0 <= j < earlier.len() && earlier[j].name == name;
            assert(points[j].name == name);
        }
        if sampled(points, name) {
            let j = choose|j: int| 0 <= j < points.len() && points[j].name == name;
            assert(earlier[j].name == name);
        }
        if cell_of(points, name) != Cell::Empty {
            let j = choose|j: int|
                0 <= j < earlier.len() && earlier[j].name == name && cell_of(earlier, name)
                    == Cell::Number(earlier[j].value);
            assert(points[j].name == name);
        }
    }
}

/// The table has a row to the frame, and every row has a cell to the header.
pub proof fn lemma_table_shape(frames: Seq<FrameView>)
    ensures
        table_of(frames).rows.len() == frames.len(),
        table_of(frames).headers[0] == "timestamp"@,
        forall|i: int|
            0 <= i < frames.len() ==> (#[trigger] table_of(frames).rows[i]).len() == table_of(
                frames,
            ).headers.len(),
{
}

} // verus!
