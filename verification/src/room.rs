//! Room templates: ASCII-art text parsed into a set of local cells, with
//! translation and door/spawn queries used during placement.
//!
//! Template text is read bottom-up: the last non-blank source line becomes
//! local row 0. One room may be built from several stacked text blocks;
//! characters of later blocks add a layer onto the cell already present at
//! their coordinate instead of replacing it.

use vstd::prelude::*;
use vstd::string::*;

use crate::cell::{
    spec_add_layer, spec_stack_wf, spec_visible, Cell, CellView,
};
use crate::coordinate::Coordinate;
use crate::layer::{spec_layer_of_char, LayerType};

verus! {

/// An immutable-once-built room template.
#[derive(Clone, Debug)]
pub struct Room {
    pub cells: Vec<Cell>,
    pub max_side_length: u16,
}

/// The mathematical value of a room: its cells in build order and its
/// bounding side length.
#[verifier::ext_equal]
pub struct RoomView {
    pub cells: Seq<CellView>,
    pub max_side_length: int,
}

/// The views of a sequence of cells, in order.
pub open spec fn views_of_cells(cells: Seq<Cell>) -> Seq<CellView> {
    cells.map_values(|c: Cell| c@)
}

/// The views of a sequence of borrowed cells, in order.
pub open spec fn views_of_refs(cells: Seq<&Cell>) -> Seq<CellView> {
    cells.map_values(|c: &Cell| c@)
}

impl View for Room {
    type V = RoomView;

    open spec fn view(&self) -> RoomView {
        RoomView {
            cells: views_of_cells(self.cells@),
            max_side_length: self.max_side_length as int,
        }
    }
}

/// ASCII whitespace, the whitespace this library recognises in template
/// text.
pub open spec fn spec_is_space(c: char) -> bool {
    c == ' ' || c == '\t' || c == '\r' || c == '\n' || c == '\u{b}' || c == '\u{c}'
}

/// Exec counterpart of `spec_is_space`.
pub fn is_space(c: char) -> (r: bool)
    ensures
        r == spec_is_space(c),
{
    c == ' ' || c == '\t' || c == '\r' || c == '\n' || c == '\u{b}' || c == '\u{c}'
}

/// State of splitting the first `i` characters of `s` into lines: the
/// finished lines, and the line currently being gathered.
pub open spec fn spec_split_state(s: Seq<char>, i: int) -> (Seq<Seq<char>>, Seq<char>)
    decreases i,
{
    if i <= 0 {
        (Seq::<Seq<char>>::empty(), Seq::<char>::empty())
    } else {
        let st = spec_split_state(s, i - 1);
        if s[i - 1] == '\n' {
            (st.0.push(st.1), Seq::<char>::empty())
        } else {
            (st.0, st.1.push(s[i - 1]))
        }
    }
}

/// The lines of `s`, split on `'\n'`, trailing segment included.
pub open spec fn spec_lines(s: Seq<char>) -> Seq<Seq<char>> {
    let st = spec_split_state(s, s.len() as int);
    st.0.push(st.1)
}

/// Splitting `i` characters yields at most `i` finished lines, each of at
/// most `i` characters, and a current line of at most `i` characters.
proof fn lemma_split_state_bounds(s: Seq<char>, i: int)
    requires
        0 <= i <= s.len(),
    ensures
        spec_split_state(s, i).0.len() <= i,
        spec_split_state(s, i).1.len() <= i,
        forall|j: int|
            0 <= j < spec_split_state(s, i).0.len() ==> (#[trigger] spec_split_state(s, i).0[j]).len()
                <= i,
    decreases i,
{
    if i > 0 {
        lemma_split_state_bounds(s, i - 1);
    }
}

/// First index at or after `i` holding a non-space character, or the length
/// of the line when there is none.
pub open spec fn spec_scan_nonspace(line: Seq<char>, i: int) -> int
    decreases line.len() - i,
{
    if i < 0 || i >= line.len() {
        line.len() as int
    } else if !spec_is_space(line[i]) {
        i
    } else {
        spec_scan_nonspace(line, i + 1)
    }
}

/// One past the last index before `j` holding a non-space character, or 0
/// when there is none.
pub open spec fn spec_scan_nonspace_end(line: Seq<char>, j: int) -> int
    decreases j,
{
    if j <= 0 || j > line.len() {
        0
    } else if !spec_is_space(line[j - 1]) {
        j
    } else {
        spec_scan_nonspace_end(line, j - 1)
    }
}

/// The line with leading and trailing whitespace removed.
pub open spec fn spec_trim(line: Seq<char>) -> Seq<char> {
    let a = spec_scan_nonspace(line, 0);
    let b = spec_scan_nonspace_end(line, line.len() as int);
    if a >= b {
        Seq::<char>::empty()
    } else {
        line.subrange(a, b)
    }
}

/// First index in `cells` holding the coordinate `(x, y)`.
pub open spec fn spec_find_cell(cells: Seq<CellView>, x: int, y: int) -> Option<int>
    decreases cells.len(),
{
    if cells.len() == 0 {
        None
    } else if cells[0].coordinate.x == x && cells[0].coordinate.y == y {
        Some(0)
    } else {
        match spec_find_cell(cells.drop_first(), x, y) {
            Some(i) => Some(i + 1),
            None => None,
        }
    }
}

/// What `spec_find_cell` finds is the first match.
pub proof fn lemma_find_cell_ensures(cells: Seq<CellView>, x: int, y: int)
    ensures
        match spec_find_cell(cells, x, y) {
            Some(i) => 0 <= i < cells.len() && cells[i].coordinate.x == x && cells[i].coordinate.y
                == y && forall|j: int|
                0 <= j < i ==> !((#[trigger] cells[j]).coordinate.x == x && cells[j].coordinate.y
                    == y),
            None => forall|j: int|
                0 <= j < cells.len() ==> !((#[trigger] cells[j]).coordinate.x == x
                    && cells[j].coordinate.y == y),
        },
    decreases cells.len(),
{
    if cells.len() > 0 {
        if !(cells[0].coordinate.x == x && cells[0].coordinate.y == y) {
            lemma_find_cell_ensures(cells.drop_first(), x, y);
            let tail = cells.drop_first();
            assert(forall|j: int| 1 <= j < cells.len() ==> #[trigger] cells[j] == tail[j - 1]);
            match spec_find_cell(tail, x, y) {
                Some(i) => {
                    assert(cells[i + 1] == tail[i]);
                    assert forall|j: int|
                        0 <= j < i + 1 implies !((#[trigger] cells[j]).coordinate.x == x
                        && cells[j].coordinate.y == y) by {
                        if j > 0 {
                            assert(cells[j] == tail[j - 1]);
                        }
                    }
                },
                None => {
                    assert forall|j: int|
                        0 <= j < cells.len() implies !((#[trigger] cells[j]).coordinate.x == x
                        && cells[j].coordinate.y == y) by {
                        if j > 0 {
                            assert(cells[j] == tail[j - 1]);
                        }
                    }
                },
            }
        }
    }
}

/// The cell built for one template character: the decoded layer, grounded
/// on a room floor unless it is itself a room floor or a door.
pub open spec fn spec_build_cell(x: int, y: int, c: char) -> CellView {
    let layer = spec_layer_of_char(c);
    let base: Seq<LayerType> = if layer != LayerType::RoomFloor && layer != LayerType::Door {
        seq![LayerType::RoomFloor]
    } else {
        Seq::<LayerType>::empty()
    };
    CellView { coordinate: Coordinate { x: x as i32, y: y as i32 }, layers: spec_add_layer(base, c_layer(c)) }
}

/// The layer decoded from one template character.
pub open spec fn c_layer(c: char) -> LayerType {
    spec_layer_of_char(c)
}

/// Adding one template character at `(x, y)`: the layer is appended to the
/// cell already there, or a new cell is built when the coordinate is new.
pub open spec fn spec_upsert(cells: Seq<CellView>, x: int, y: int, c: char) -> Seq<CellView> {
    match spec_find_cell(cells, x, y) {
        Some(i) => cells.update(
            i,
            CellView {
                coordinate: cells[i].coordinate,
                layers: spec_add_layer(cells[i].layers, c_layer(c)),
            },
        ),
        None => cells.push(spec_build_cell(x, y, c)),
    }
}

/// The cells after processing the first `x` characters of one trimmed row.
/// Whitespace characters inside a row occupy a position but add no cell.
pub open spec fn spec_row_fold(cells: Seq<CellView>, line: Seq<char>, y: int, x: int) -> Seq<
    CellView,
>
    decreases x,
{
    if x <= 0 {
        cells
    } else {
        let prev = spec_row_fold(cells, line, y, x - 1);
        if spec_is_space(line[x - 1]) {
            prev
        } else {
            spec_upsert(prev, x - 1, y, line[x - 1])
        }
    }
}

/// State of one block build: cells so far, greatest side length so far, and
/// the next local row index.
pub struct BuildState {
    pub cells: Seq<CellView>,
    pub msl: int,
    pub y: int,
}

/// The build state after processing the first `i` lines of one block,
/// bottom-up. Blank lines are skipped and do not advance the row index.
pub open spec fn spec_lines_fold(st: BuildState, lines: Seq<Seq<char>>, i: int) -> BuildState
    decreases i,
{
    if i <= 0 {
        st
    } else {
        let prev = spec_lines_fold(st, lines, i - 1);
        let tl = spec_trim(lines[i - 1]);
        if tl.len() == 0 {
            prev
        } else {
            BuildState {
                cells: spec_row_fold(prev.cells, tl, prev.y, tl.len() as int),
                msl: if tl.len() > prev.msl {
                    tl.len() as int
                } else {
                    prev.msl
                },
                y: prev.y + 1,
            }
        }
    }
}

/// The cells and side length after folding one whole text block into the
/// given cells: lines are taken bottom-up, and the row count joins the row
/// lengths in the side-length maximum.
pub open spec fn spec_block_fold(cells: Seq<CellView>, msl: int, text: Seq<char>) -> (Seq<
    CellView,
>, int) {
    let lines = spec_lines(text).reverse();
    let st = spec_lines_fold(BuildState { cells, msl, y: 0 }, lines, lines.len() as int);
    (st.cells, if st.y > st.msl {
        st.y
    } else {
        st.msl
    })
}

/// The room built by stacking the first `k` text blocks.
pub open spec fn spec_blocks_fold(texts: Seq<Seq<char>>, k: int) -> (Seq<CellView>, int)
    decreases k,
{
    if k <= 0 {
        (Seq::<CellView>::empty(), 0)
    } else {
        let prev = spec_blocks_fold(texts, k - 1);
        spec_block_fold(prev.0, prev.1, texts[k - 1])
    }
}

/// The room described by a stack of template text blocks.
pub open spec fn spec_room_of(texts: Seq<Seq<char>>) -> RoomView {
    let built = spec_blocks_fold(texts, texts.len() as int);
    RoomView { cells: built.0, max_side_length: built.1 }
}

/// The characters of a string, in order.
fn collect_chars(text: &str) -> (r: Vec<char>)
    ensures
        r@ == text@,
{
    let n = text.unicode_len();
    let mut out: Vec<char> = Vec::new();
    let mut i: usize = 0;
    while i < n
        invariant
            n == text@.len(),
            i <= n,
            out@ == text@.subrange(0, i as int),
        decreases n - i,
    {
        let c = text.get_char(i);
        out.push(c);
        proof {
            assert(out@ =~= text@.subrange(0, i + 1));
        }
        i += 1;
    }
    proof {
        assert(out@ =~= text@);
    }
    out
}

/// The views of a sequence of character lines.
pub open spec fn views_of_lines(lines: Seq<Vec<char>>) -> Seq<Seq<char>> {
    lines.map_values(|l: Vec<char>| l@)
}

/// Split characters into lines on `'\n'`; the segment after the last
/// newline is a line too.
fn split_lines(chars: &Vec<char>) -> (r: Vec<Vec<char>>)
    ensures
        views_of_lines(r@) == spec_lines(chars@),
{
    let mut lines: Vec<Vec<char>> = Vec::new();
    let mut cur: Vec<char> = Vec::new();
    let mut i: usize = 0;
    while i < chars.len()
        invariant
            i <= chars@.len(),
            views_of_lines(lines@) == spec_split_state(chars@, i as int).0,
            cur@ == spec_split_state(chars@, i as int).1,
        decreases chars@.len() - i,
    {
        let c = chars[i];
        if c == '\n' {
            lines.push(cur);
            cur = Vec::new();
            proof {
                assert(views_of_lines(lines@) =~= spec_split_state(chars@, i + 1).0);
            }
        } else {
            cur.push(c);
        }
        i += 1;
    }
    lines.push(cur);
    proof {
        assert(views_of_lines(lines@) =~= spec_lines(chars@));
    }
    lines
}

/// The lines in reverse order, so that the bottom source line comes first.
fn reverse_lines(lines: Vec<Vec<char>>) -> (r: Vec<Vec<char>>)
    ensures
        views_of_lines(r@) == views_of_lines(lines@).reverse(),
{
    let mut out: Vec<Vec<char>> = Vec::new();
    let mut i: usize = lines.len();
    while i > 0
        invariant
            i <= lines@.len(),
            views_of_lines(out@) == views_of_lines(lines@).subrange(i as int, lines@.len() as int).reverse(),
        decreases i,
    {
        i -= 1;
        let mut line_copy: Vec<char> = Vec::new();
        let line = &lines[i];
        let mut j: usize = 0;
        while j < line.len()
            invariant
                j <= line@.len(),
                i < lines@.len(),
                line@ == lines@[i as int]@,
                line_copy@ == line@.subrange(0, j as int),
            decreases line@.len() - j,
        {
            line_copy.push(line[j]);
            proof {
                assert(line_copy@ =~= line@.subrange(0, j + 1));
            }
            j += 1;
        }
        proof {
            assert(line_copy@ =~= lines@[i as int]@);
        }
        let ghost out_before = views_of_lines(out@);
        out.push(line_copy);
        proof {
            let all = views_of_lines(lines@);
            let target = all.subrange(i as int, all.len() as int).reverse();
            let prev_target = all.subrange(i + 1, all.len() as int).reverse();
            assert(views_of_lines(out@).len() == out_before.len() + 1);
            assert forall|j: int| 0 <= j < target.len() implies #[trigger] target[j]
                == views_of_lines(out@)[j] by {
                if j < out_before.len() {
                    assert(target[j] == all[all.len() - 1 - j]);
                    assert(prev_target[j] == all[all.len() - 1 - j]);
                    assert(out_before[j] == prev_target[j]);
                    assert(views_of_lines(out@)[j] == out_before[j]);
                } else {
                    assert(target[j] == all[i as int]);
                    assert(views_of_lines(out@)[j] == line_copy@);
                }
            }
            assert(views_of_lines(out@) =~~= target);
        }
    }
    proof {
        let all = views_of_lines(lines@);
        assert(all.subrange(0, all.len() as int) =~~= all);
        assert(views_of_lines(out@) =~~= all.reverse());
    }
    out
}

/// The line with leading and trailing whitespace removed.
fn trim_line(line: &Vec<char>) -> (r: Vec<char>)
    ensures
        r@ == spec_trim(line@),
{
    let mut a: usize = 0;
    while a < line.len() && is_space(line[a])
        invariant
            a <= line@.len(),
            spec_scan_nonspace(line@, 0) == spec_scan_nonspace(line@, a as int),
        decreases line@.len() - a,
    {
        a += 1;
    }
    proof {
        assert(spec_scan_nonspace(line@, 0) == a as int);
    }
    let mut b: usize = line.len();
    while b > 0 && is_space(line[b - 1])
        invariant
            b <= line@.len(),
            spec_scan_nonspace_end(line@, line@.len() as int) == spec_scan_nonspace_end(
                line@,
                b as int,
            ),
        decreases b,
    {
        b -= 1;
    }
    proof {
        assert(spec_scan_nonspace_end(line@, line@.len() as int) == b as int);
    }
    let mut out: Vec<char> = Vec::new();
    if a >= b {
        proof {
            assert(out@ =~= spec_trim(line@));
        }
        return out;
    }
    let mut k: usize = a;
    while k < b
        invariant
            a <= k <= b <= line@.len(),
            out@ == line@.subrange(a as int, k as int),
        decreases b - k,
    {
        out.push(line[k]);
        proof {
            assert(out@ =~= line@.subrange(a as int, k + 1));
        }
        k += 1;
    }
    proof {
        assert(out@ =~= spec_trim(line@));
    }
    out
}

/// First index in `cells` holding the coordinate `(x, y)`, as the exec
/// counterpart of `spec_find_cell`.
fn find_cell_index(cells: &Vec<Cell>, x: i32, y: i32) -> (r: Option<usize>)
    ensures
        match r {
            Some(i) => i < cells@.len() && spec_find_cell(views_of_cells(cells@), x as int, y as int)
                == Some(i as int),
            None => spec_find_cell(views_of_cells(cells@), x as int, y as int) == None::<int>,
        },
{
    proof {
        lemma_find_cell_ensures(views_of_cells(cells@), x as int, y as int);
    }
    let mut i: usize = 0;
    while i < cells.len()
        invariant
            i <= cells@.len(),
            forall|j: int|
                0 <= j < i ==> !((#[trigger] views_of_cells(cells@)[j]).coordinate.x == x as int
                    && views_of_cells(cells@)[j].coordinate.y == y as int),
        decreases cells@.len() - i,
    {
        if cells[i].is_at_location(x, y) {
            proof {
                lemma_find_cell_ensures(views_of_cells(cells@), x as int, y as int);
                assert(views_of_cells(cells@)[i as int] == cells@[i as int]@);
            }
            return Some(i);
        }
        proof {
            assert(views_of_cells(cells@)[i as int] == cells@[i as int]@);
        }
        i += 1;
    }
    proof {
        lemma_find_cell_ensures(views_of_cells(cells@), x as int, y as int);
    }
    None
}

/// The cell built for one template character, grounded on a room floor
/// unless it decodes to a room floor or a door.
fn build_cell(x: i32, y: i32, c: char) -> (r: Cell)
    ensures
        r@ == spec_build_cell(x as int, y as int, c),
{
    let layer: LayerType = LayerType::from(c);
    let mut cell = Cell { coordinate: Coordinate::new(x, y), layers: Vec::new() };
    if layer != LayerType::RoomFloor && layer != LayerType::Door {
        cell.add_layer(LayerType::RoomFloor);
        proof {
            assert(cell@.layers =~= seq![LayerType::RoomFloor]);
        }
    }
    cell.add_layer(layer);
    cell
}

/// Add one template character to the cells of a room under construction.
fn upsert_cell(cells: &mut Vec<Cell>, x: i32, y: i32, c: char)
    ensures
        views_of_cells(final(cells)@) == spec_upsert(views_of_cells(old(cells)@), x as int, y as int, c),
{
    match find_cell_index(cells, x, y) {
        Some(i) => {
            let mut cell = cells.remove(i);
            cell.add_layer(LayerType::from(c));
            cells.insert(i, cell);
            proof {
                let before = views_of_cells(old(cells)@);
                let target = spec_upsert(before, x as int, y as int, c);
                assert(views_of_cells(cells@) =~= target);
            }
        },
        None => {
            let cell = build_cell(x, y, c);
            cells.push(cell);
            proof {
                assert(views_of_cells(cells@) =~= spec_upsert(
                    views_of_cells(old(cells)@),
                    x as int,
                    y as int,
                    c,
                ));
            }
        },
    }
}

impl Room {
    /// Build a room from a single template text block.
    pub fn from_template_string(template: &str) -> (r: Room)
        requires
            template@.len() < 65535,
        ensures
            r@ == spec_room_of(seq![template@]),
    {
        let mut cells: Vec<Cell> = Vec::new();
        let mut msl: u16 = 0;
        process_block(&mut cells, &mut msl, template);
        proof {
            assert(spec_blocks_fold(seq![template@], 0) == (Seq::<CellView>::empty(), 0int));
            assert(views_of_cells(Seq::<Cell>::empty()) =~= Seq::<CellView>::empty());
        }
        Room { cells, max_side_length: msl }
    }

    /// Build one room from several stacked template text blocks; later
    /// blocks overlay the cells of earlier ones.
    pub fn from_template_strings(templates: &Vec<String>) -> (r: Room)
        requires
            forall|k: int| 0 <= k < templates@.len() ==> (#[trigger] templates@[k])@.len() < 65535,
        ensures
            r@ == spec_room_of(templates@.map_values(|t: String| t@)),
    {
        let texts = Ghost(templates@.map_values(|t: String| t@));
        let mut cells: Vec<Cell> = Vec::new();
        let mut msl: u16 = 0;
        let mut k: usize = 0;
        proof {
            assert(views_of_cells(Seq::<Cell>::empty()) =~= Seq::<CellView>::empty());
        }
        while k < templates.len()
            invariant
                k <= templates@.len(),
                texts@ == templates@.map_values(|t: String| t@),
                forall|j: int| 0 <= j < templates@.len() ==> (#[trigger] templates@[j])@.len()
                    < 65535,
                views_of_cells(cells@) == spec_blocks_fold(texts@, k as int).0,
                msl as int == spec_blocks_fold(texts@, k as int).1,
            decreases templates@.len() - k,
        {
            process_block(&mut cells, &mut msl, templates[k].as_str());
            k += 1;
        }
        Room { cells, max_side_length: msl }
    }
}

/// Fold one text block into the cells and side length of a room under
/// construction.
fn process_block(cells: &mut Vec<Cell>, msl: &mut u16, text: &str)
    requires
        text@.len() < 65535,
    ensures
        views_of_cells(final(cells)@) == spec_block_fold(
            views_of_cells(old(cells)@),
            *old(msl) as int,
            text@,
        ).0,
        *final(msl) as int == spec_block_fold(
            views_of_cells(old(cells)@),
            *old(msl) as int,
            text@,
        ).1,
{
    let chars = collect_chars(text);
    let raw_lines = split_lines(&chars);
    let lines = reverse_lines(raw_lines);
    let ghost line_views = views_of_lines(lines@);
    let ghost init = BuildState {
        cells: views_of_cells(old(cells)@),
        msl: *old(msl) as int,
        y: 0,
    };
    proof {
        lemma_split_state_bounds(text@, text@.len() as int);
        assert(line_views == spec_lines(text@).reverse());
    }
    let mut y: u16 = 0;
    let mut i: usize = 0;
    while i < lines.len()
        invariant
            i <= lines@.len(),
            line_views == views_of_lines(lines@),
            line_views == spec_lines(text@).reverse(),
            line_views.len() <= text@.len() + 1,
            forall|j: int| 0 <= j < line_views.len() ==> (#[trigger] line_views[j]).len()
                <= text@.len(),
            text@.len() < 65535,
            views_of_cells(cells@) == spec_lines_fold(init, line_views, i as int).cells,
            *msl as int == spec_lines_fold(init, line_views, i as int).msl,
            y as int == spec_lines_fold(init, line_views, i as int).y,
            y as int <= i,
        decreases lines@.len() - i,
    {
        let tl = trim_line(&lines[i]);
        proof {
            assert(lines@[i as int]@ == line_views[i as int]);
            assert(spec_trim(line_views[i as int]).len() <= line_views[i as int].len()) by {
                lemma_trim_len(line_views[i as int]);
            }
        }
        if tl.len() > 0 {
            let ghost row_start = views_of_cells(cells@);
            let mut x: usize = 0;
            while x < tl.len()
                invariant
                    x <= tl@.len(),
                    tl@ == spec_trim(line_views[i as int]),
                    views_of_cells(cells@) == spec_row_fold(row_start, tl@, y as int, x as int),
                    tl@.len() < 65535,
                    y as int <= i,
                    i < line_views.len(),
                    line_views.len() <= text@.len() + 1,
                    text@.len() < 65535,
                decreases tl@.len() - x,
            {
                let c = tl[x];
                if !is_space(c) {
                    upsert_cell(cells, x as i32, y as i32, c);
                }
                x += 1;
            }
            let row_len: u16 = tl.len() as u16;
            if row_len > *msl {
                *msl = row_len;
            }
            y += 1;
        }
        i += 1;
    }
    proof {
        let st = spec_lines_fold(init, line_views, line_views.len() as int);
        assert(spec_block_fold(init.cells, init.msl, text@).0 == st.cells);
    }
    if y > *msl {
        *msl = y;
    }
}

/// The split state over a prefix depends on that prefix alone.
proof fn lemma_split_state_prefix(s: Seq<char>, i: int)
    requires
        0 <= i <= s.len(),
    ensures
        spec_split_state(s, i) == spec_split_state(s.subrange(0, i), i),
    decreases i,
{
    if i > 0 {
        lemma_split_state_prefix(s, i - 1);
        lemma_split_state_prefix(s.subrange(0, i), i - 1);
        assert(s.subrange(0, i).subrange(0, i - 1) =~= s.subrange(0, i - 1));
        assert(s.subrange(0, i)[i - 1] == s[i - 1]);
    }
}

/// Splitting a newline-free prefix gathers it, unfinished, into the
/// current line.
proof fn lemma_split_state_clean(line: Seq<char>, i: int)
    requires
        0 <= i <= line.len(),
        forall|j: int| 0 <= j < line.len() ==> line[j] != '\n',
    ensures
        spec_split_state(line, i).0 == Seq::<Seq<char>>::empty(),
        spec_split_state(line, i).1 == line.subrange(0, i),
    decreases i,
{
    if i > 0 {
        lemma_split_state_clean(line, i - 1);
        assert(spec_split_state(line, i).1 =~= line.subrange(0, i));
    } else {
        assert(spec_split_state(line, 0).1 =~= line.subrange(0, 0));
    }
}

/// Splitting past a newline-free first line and its newline: the finished
/// lines are that line followed by whatever the remainder yields, and the
/// unfinished line is the remainder's.
proof fn lemma_split_append(line: Seq<char>, rest: Seq<char>, j: int)
    requires
        forall|k: int| 0 <= k < line.len() ==> line[k] != '\n',
        0 <= j <= rest.len(),
    ensures
        spec_split_state(line + seq!['\n'] + rest, line.len() as int + 1 + j).0 == seq![line]
            + spec_split_state(rest, j).0,
        spec_split_state(line + seq!['\n'] + rest, line.len() as int + 1 + j).1 == spec_split_state(
            rest,
            j,
        ).1,
    decreases j,
{
    let whole = line + seq!['\n'] + rest;
    if j == 0 {
        lemma_split_state_prefix(whole, line.len() as int);
        assert(whole.subrange(0, line.len() as int) =~= line);
        lemma_split_state_clean(line, line.len() as int);
        assert(line.subrange(0, line.len() as int) =~= line);
        assert(whole[line.len() as int] == '\n');
        assert(spec_split_state(whole, line.len() as int + 1).0 =~= seq![line] + spec_split_state(
            rest,
            0,
        ).0);
        assert(spec_split_state(whole, line.len() as int + 1).1 =~= spec_split_state(rest, 0).1);
    } else {
        lemma_split_append(line, rest, j - 1);
        assert(whole[line.len() as int + j] == rest[j - 1]);
        if rest[j - 1] == '\n' {
            assert(spec_split_state(whole, line.len() as int + 1 + j).0 =~= seq![line]
                + spec_split_state(rest, j).0);
        } else {
            assert(spec_split_state(whole, line.len() as int + 1 + j).0 =~= seq![line]
                + spec_split_state(rest, j).0);
        }
    }
}

/// Peeling the first line off a template text: the lines of the whole are
/// that line followed by the lines of the remainder.
pub(crate) proof fn lemma_lines_peel(line: Seq<char>, rest: Seq<char>, whole: Seq<char>)
    requires
        whole == line + seq!['\n'] + rest,
        forall|k: int| 0 <= k < line.len() ==> line[k] != '\n',
    ensures
        spec_lines(whole) == seq![line] + spec_lines(rest),
    decreases 0int,
{
    lemma_split_append(line, rest, rest.len() as int);
    assert(whole.len() == line.len() + 1 + rest.len());
    assert(spec_lines(whole) =~~= seq![line] + spec_lines(rest));
}

/// The lines of a newline-free text are that text alone.
pub(crate) proof fn lemma_lines_single(line: Seq<char>)
    requires
        forall|k: int| 0 <= k < line.len() ==> line[k] != '\n',
    ensures
        spec_lines(line) == seq![line],
{
    lemma_split_state_clean(line, line.len() as int);
    assert(line.subrange(0, line.len() as int) =~= line);
    assert(spec_lines(line) =~= seq![line]);
}

/// The cell of a room at a local coordinate: the first cell in build order
/// with that coordinate, when there is one.
pub open spec fn spec_cell_at(cells: Seq<CellView>, x: int, y: int) -> Option<CellView> {
    match spec_find_cell(cells, x, y) {
        Some(i) => Some(cells[i]),
        None => None,
    }
}

/// Whether the room has a cell at `(x, y)` whose visible layer is room
/// floor.
pub open spec fn spec_floor_visible_at(cells: Seq<CellView>, x: int, y: int) -> bool {
    match spec_cell_at(cells, x, y) {
        Some(c) => spec_visible(c.layers) == LayerType::RoomFloor,
        None => false,
    }
}

/// Whether the room has no cell at all at `(x, y)`.
pub open spec fn spec_vacant_at(cells: Seq<CellView>, x: int, y: int) -> bool {
    spec_cell_at(cells, x, y) is None
}

/// A cell qualifies as a door position when its visible layer is a room
/// wall, some orthogonal neighbour coordinate holds visible room floor, and
/// some orthogonal neighbour coordinate lies outside the room entirely.
/// Interior partition walls fail the last condition.
pub open spec fn spec_can_be_door(cells: Seq<CellView>, cv: CellView) -> bool {
    let x = cv.coordinate.x as int;
    let y = cv.coordinate.y as int;
    spec_visible(cv.layers) == LayerType::RoomWall && (spec_floor_visible_at(cells, x - 1, y)
        || spec_floor_visible_at(cells, x, y - 1) || spec_floor_visible_at(cells, x + 1, y)
        || spec_floor_visible_at(cells, x, y + 1)) && (spec_vacant_at(cells, x - 1, y)
        || spec_vacant_at(cells, x, y - 1) || spec_vacant_at(cells, x + 1, y) || spec_vacant_at(
        cells,
        x,
        y + 1,
    ))
}

/// Every cell coordinate leaves room for its four orthogonal neighbours
/// within `i32`.
pub open spec fn spec_coords_in_range(cells: Seq<CellView>) -> bool {
    forall|i: int|
        0 <= i < cells.len() ==> {
            let cv = #[trigger] cells[i];
            i32::MIN < cv.coordinate.x < i32::MAX && i32::MIN < cv.coordinate.y < i32::MAX
        }
}

/// A cell translated by `(dx, dy)`, keeping its stack.
pub open spec fn spec_translate_cell(cv: CellView, dx: int, dy: int) -> CellView {
    CellView {
        coordinate: Coordinate {
            x: (cv.coordinate.x + dx) as i32,
            y: (cv.coordinate.y + dy) as i32,
        },
        layers: cv.layers,
    }
}

/// All cells translated by `(dx, dy)`.
pub open spec fn spec_translate_cells(cells: Seq<CellView>, dx: int, dy: int) -> Seq<CellView> {
    cells.map_values(|cv: CellView| spec_translate_cell(cv, dx, dy))
}

/// The cells of `part` whose visible layer is room floor, in order.
pub open spec fn spec_spawnable_cells_of(part: Seq<CellView>) -> Seq<CellView> {
    part.filter(|cv: CellView| spec_visible(cv.layers) == LayerType::RoomFloor)
}

/// The cells of `part` that qualify as door positions of the room whose
/// cells are `all`, in order.
pub open spec fn spec_door_cells_of(all: Seq<CellView>, part: Seq<CellView>) -> Seq<CellView> {
    part.filter(|cv: CellView| spec_can_be_door(all, cv))
}

/// Extending the filtered prefix by one cell keeps or appends it according
/// to the predicate.
proof fn lemma_filter_prefix_step(cells: Seq<CellView>, pred: spec_fn(CellView) -> bool, i: int)
    requires
        0 <= i < cells.len(),
    ensures
        cells.subrange(0, i + 1).filter(pred) == if pred(cells[i]) {
            cells.subrange(0, i).filter(pred).push(cells[i])
        } else {
            cells.subrange(0, i).filter(pred)
        },
{
    reveal(Seq::filter);
    let longer = cells.subrange(0, i + 1);
    assert(longer.drop_last() =~= cells.subrange(0, i));
    assert(longer.last() == cells[i]);
}

/// Filtering an empty prefix yields nothing.
proof fn lemma_filter_empty(cells: Seq<CellView>, pred: spec_fn(CellView) -> bool)
    ensures
        cells.subrange(0, 0).filter(pred) == Seq::<CellView>::empty(),
{
    reveal(Seq::filter);
    assert(cells.subrange(0, 0) =~= Seq::<CellView>::empty());
}

/// The cells after replacing the whole stack of the first cell at
/// `(x, y)` with the single given layer; unchanged when no cell sits
/// there.
pub open spec fn spec_replace_at(cells: Seq<CellView>, x: int, y: int, layer: LayerType) -> Seq<
    CellView,
> {
    match spec_find_cell(cells, x, y) {
        Some(i) => cells.update(
            i,
            CellView {
                coordinate: cells[i].coordinate,
                layers: spec_add_layer(Seq::<LayerType>::empty(), layer),
            },
        ),
        None => cells,
    }
}

/// The cells after pushing a layer onto the first cell at `(x, y)`;
/// unchanged when no cell sits there.
pub open spec fn spec_add_layer_at(cells: Seq<CellView>, x: int, y: int, layer: LayerType) -> Seq<
    CellView,
> {
    match spec_find_cell(cells, x, y) {
        Some(i) => cells.update(
            i,
            CellView {
                coordinate: cells[i].coordinate,
                layers: spec_add_layer(cells[i].layers, layer),
            },
        ),
        None => cells,
    }
}

/// A well-formed room: every cell sits inside the bounding square given by
/// `max_side_length`, and every stack is non-empty and stores no `Empty`
/// layer.
pub open spec fn spec_room_wf(r: RoomView) -> bool {
    forall|i: int|
        0 <= i < r.cells.len() ==> {
            let cv = #[trigger] r.cells[i];
            0 <= cv.coordinate.x < r.max_side_length && 0 <= cv.coordinate.y < r.max_side_length
                && cv.layers.len() > 0 && spec_stack_wf(cv.layers)
        }
}

impl Room {
    /// The room's cells, in build order.
    pub fn cells(&self) -> (r: &Vec<Cell>)
        ensures
            views_of_cells(r@) == self@.cells,
    {
        &self.cells
    }

    /// The bounding side length: the greatest of the rows' character
    /// counts and the row count over all blocks the room was built from.
    pub fn max_side_length(&self) -> (r: u16)
        ensures
            r as int == self@.max_side_length,
    {
        self.max_side_length
    }

    /// A copy of the room moved so that its local origin lands on the
    /// given bottom-left point. The receiver is unchanged.
    pub fn translate(&self, bottom_left_x: i32, bottom_left_y: i32) -> (r: Self)
        requires
            forall|i: int|
                0 <= i < self@.cells.len() ==> {
                    let cv = #[trigger] self@.cells[i];
                    i32::MIN <= cv.coordinate.x + bottom_left_x <= i32::MAX && i32::MIN
                        <= cv.coordinate.y + bottom_left_y <= i32::MAX
                },
        ensures
            r@.max_side_length == self@.max_side_length,
            r@.cells == spec_translate_cells(
                self@.cells,
                bottom_left_x as int,
                bottom_left_y as int,
            ),
    {
        let mut cells: Vec<Cell> = Vec::new();
        let mut i: usize = 0;
        proof {
            assert(views_of_cells(cells@) =~~= spec_translate_cells(
                self@.cells.subrange(0, 0),
                bottom_left_x as int,
                bottom_left_y as int,
            ));
        }
        while i < self.cells.len()
            invariant
                i <= self@.cells.len(),
                views_of_cells(self.cells@) == self@.cells,
                forall|j: int|
                    0 <= j < self@.cells.len() ==> {
                        let cv = #[trigger] self@.cells[j];
                        i32::MIN <= cv.coordinate.x + bottom_left_x <= i32::MAX && i32::MIN
                            <= cv.coordinate.y + bottom_left_y <= i32::MAX
                    },
                views_of_cells(cells@) == spec_translate_cells(
                    self@.cells.subrange(0, i as int),
                    bottom_left_x as int,
                    bottom_left_y as int,
                ),
            decreases self@.cells.len() - i,
        {
            let cell = &self.cells[i];
            proof {
                assert(self@.cells[i as int] == self.cells@[i as int]@);
            }
            let moved = cell.translate(
                cell.coordinate.x + bottom_left_x,
                cell.coordinate.y + bottom_left_y,
            );
            let ghost old_cells = cells@;
            cells.push(moved);
            proof {
                let dx = bottom_left_x as int;
                let dy = bottom_left_y as int;
                let prev = spec_translate_cells(self@.cells.subrange(0, i as int), dx, dy);
                let cur = spec_translate_cells(self@.cells.subrange(0, i + 1), dx, dy);
                assert(prev.len() == i as int);
                assert(views_of_cells(old_cells).len() == i as int);
                assert(cells@ == old_cells.push(moved));
                assert(cells@.len() == i + 1);
                assert(cur.len() == i + 1);
                assert(views_of_cells(cells@).len() == i + 1);
                assert forall|j: int| 0 <= j < i + 1 implies views_of_cells(cells@)[j] == cur[j] by {
                    if j < i {
                        assert(views_of_cells(cells@)[j] == prev[j]);
                        assert(cur[j] == spec_translate_cell(
                            self@.cells.subrange(0, i + 1)[j],
                            dx,
                            dy,
                        ));
                        assert(prev[j] == spec_translate_cell(
                            self@.cells.subrange(0, i as int)[j],
                            dx,
                            dy,
                        ));
                    } else {
                        assert(views_of_cells(cells@)[j] == moved@);
                        assert(cur[j] == spec_translate_cell(self@.cells[i as int], dx, dy));
                        assert(moved@ =~~= spec_translate_cell(self@.cells[i as int], dx, dy));
                    }
                }
                assert(views_of_cells(cells@) =~~= cur);
            }
            i += 1;
        }
        proof {
            assert(self@.cells.subrange(0, self@.cells.len() as int) =~= self@.cells);
        }
        Room { cells, max_side_length: self.max_side_length }
    }

    /// The first cell in build order at the given local coordinate.
    pub fn cell_at(&self, x: i32, y: i32) -> (r: Option<&Cell>)
        ensures
            match r {
                Some(c) => spec_cell_at(self@.cells, x as int, y as int) == Some(c@),
                None => spec_cell_at(self@.cells, x as int, y as int) == None::<CellView>,
            },
    {
        match find_cell_index(&self.cells, x, y) {
            Some(i) => {
                proof {
                    assert(self@.cells[i as int] == self.cells@[i as int]@);
                }
                Some(&self.cells[i])
            },
            None => None,
        }
    }

    /// Whether the given cell qualifies as a door position in this room.
    pub fn cell_can_be_door(&self, cell: &Cell) -> (r: bool)
        requires
            i32::MIN < cell@.coordinate.x < i32::MAX,
            i32::MIN < cell@.coordinate.y < i32::MAX,
        ensures
            r == spec_can_be_door(self@.cells, cell@),
    {
        if cell.visible_layer() != LayerType::RoomWall {
            return false;
        }
        let x = cell.coordinate.x;
        let y = cell.coordinate.y;
        let next_to_floor = self.floor_visible_at(x - 1, y) || self.floor_visible_at(x, y - 1)
            || self.floor_visible_at(x + 1, y) || self.floor_visible_at(x, y + 1);
        let next_to_exterior = self.vacant_at(x - 1, y) || self.vacant_at(x, y - 1)
            || self.vacant_at(x + 1, y) || self.vacant_at(x, y + 1);
        next_to_floor && next_to_exterior
    }

    /// Whether the room shows room floor at the given local coordinate.
    fn floor_visible_at(&self, x: i32, y: i32) -> (r: bool)
        ensures
            r == spec_floor_visible_at(self@.cells, x as int, y as int),
    {
        match self.cell_at(x, y) {
            Some(c) => c.visible_layer() == LayerType::RoomFloor,
            None => false,
        }
    }

    /// Whether the room has no cell at the given local coordinate.
    fn vacant_at(&self, x: i32, y: i32) -> (r: bool)
        ensures
            r == spec_vacant_at(self@.cells, x as int, y as int),
    {
        match self.cell_at(x, y) {
            Some(_) => false,
            None => true,
        }
    }

    /// The cells whose visible layer is room floor, in build order.
    pub fn spawnable_cells(&self) -> (r: Vec<&Cell>)
        ensures
            views_of_refs(r@) == spec_spawnable_cells_of(self@.cells),
    {
        let ghost pred = |cv: CellView| spec_visible(cv.layers) == LayerType::RoomFloor;
        let mut out: Vec<&Cell> = Vec::new();
        let mut i: usize = 0;
        proof {
            lemma_filter_empty(self@.cells, pred);
            assert(views_of_refs(out@) =~~= self@.cells.subrange(0, 0).filter(pred));
        }
        while i < self.cells.len()
            invariant
                i <= self@.cells.len(),
                views_of_cells(self.cells@) == self@.cells,
                pred == (|cv: CellView| spec_visible(cv.layers) == LayerType::RoomFloor),
                views_of_refs(out@) == self@.cells.subrange(0, i as int).filter(pred),
            decreases self@.cells.len() - i,
        {
            proof {
                lemma_filter_prefix_step(self@.cells, pred, i as int);
                assert(self@.cells[i as int] == self.cells@[i as int]@);
            }
            if self.cells[i].visible_layer() == LayerType::RoomFloor {
                out.push(&self.cells[i]);
                proof {
                    assert(views_of_refs(out@) =~~= self@.cells.subrange(0, i + 1).filter(pred));
                }
            } else {
                proof {
                    assert(views_of_refs(out@) =~~= self@.cells.subrange(0, i + 1).filter(pred));
                }
            }
            i += 1;
        }
        proof {
            assert(self@.cells.subrange(0, self@.cells.len() as int) =~= self@.cells);
        }
        out
    }

    /// The cells that qualify as door positions, in build order.
    pub fn possible_door_cells(&self) -> (r: Vec<&Cell>)
        requires
            spec_coords_in_range(self@.cells),
        ensures
            views_of_refs(r@) == spec_door_cells_of(self@.cells, self@.cells),
    {
        let ghost pred = |cv: CellView| spec_can_be_door(self@.cells, cv);
        let mut out: Vec<&Cell> = Vec::new();
        let mut i: usize = 0;
        proof {
            lemma_filter_empty(self@.cells, pred);
            assert(views_of_refs(out@) =~~= self@.cells.subrange(0, 0).filter(pred));
        }
        while i < self.cells.len()
            invariant
                i <= self@.cells.len(),
                views_of_cells(self.cells@) == self@.cells,
                spec_coords_in_range(self@.cells),
                pred == (|cv: CellView| spec_can_be_door(self@.cells, cv)),
                views_of_refs(out@) == self@.cells.subrange(0, i as int).filter(pred),
            decreases self@.cells.len() - i,
        {
            proof {
                lemma_filter_prefix_step(self@.cells, pred, i as int);
                assert(self@.cells[i as int] == self.cells@[i as int]@);
            }
            if self.cell_can_be_door(&self.cells[i]) {
                out.push(&self.cells[i]);
                proof {
                    assert(views_of_refs(out@) =~~= self@.cells.subrange(0, i + 1).filter(pred));
                }
            } else {
                proof {
                    assert(views_of_refs(out@) =~~= self@.cells.subrange(0, i + 1).filter(pred));
                }
            }
            i += 1;
        }
        proof {
            assert(self@.cells.subrange(0, self@.cells.len() as int) =~= self@.cells);
        }
        out
    }

    /// Replace the whole stack of the first cell at `(x, y)` with the
    /// single given layer; a no-op when no cell sits there.
    pub fn replace_cell_contents(&mut self, x: i32, y: i32, layer: LayerType)
        ensures
            final(self)@.max_side_length == old(self)@.max_side_length,
            final(self)@.cells == spec_replace_at(old(self)@.cells, x as int, y as int, layer),
    {
        match find_cell_index(&self.cells, x, y) {
            Some(i) => {
                let mut cell = self.cells.remove(i);
                cell.clear_contents();
                cell.add_layer(layer);
                self.cells.insert(i, cell);
                proof {
                    assert(views_of_cells(self.cells@) =~= old(self)@.cells.update(
                        i as int,
                        CellView {
                            coordinate: old(self)@.cells[i as int].coordinate,
                            layers: spec_add_layer(Seq::<LayerType>::empty(), layer),
                        },
                    ));
                }
            },
            None => {},
        }
    }

    /// Push a layer onto the first cell at `(x, y)`; a no-op when no cell
    /// sits there.
    pub fn add_layer_to_cell(&mut self, x: i32, y: i32, layer: LayerType)
        ensures
            final(self)@.max_side_length == old(self)@.max_side_length,
            final(self)@.cells == spec_add_layer_at(old(self)@.cells, x as int, y as int, layer),
    {
        match find_cell_index(&self.cells, x, y) {
            Some(i) => {
                let mut cell = self.cells.remove(i);
                cell.add_layer(layer);
                self.cells.insert(i, cell);
                proof {
                    assert(views_of_cells(self.cells@) =~= old(self)@.cells.update(
                        i as int,
                        CellView {
                            coordinate: old(self)@.cells[i as int].coordinate,
                            layers: spec_add_layer(old(self)@.cells[i as int].layers, layer),
                        },
                    ));
                }
            },
            None => {},
        }
    }
}

/// Bounds and stack sanity of a cell collection under construction:
/// every coordinate is non-negative, x stays below `bx`, y stays below
/// `by`, and every stack is non-empty and free of `Empty`.
spec fn cells_bounded(cells: Seq<CellView>, bx: int, by: int) -> bool {
    forall|i: int|
        0 <= i < cells.len() ==> {
            let cv = #[trigger] cells[i];
            0 <= cv.coordinate.x < bx && 0 <= cv.coordinate.y < by && cv.layers.len() > 0
                && spec_stack_wf(cv.layers)
        }
}

/// Pushing a layer keeps a stack well formed and never shrinks it.
proof fn lemma_add_layer_props(layers: Seq<LayerType>, layer: LayerType)
    ensures
        spec_stack_wf(layers) ==> spec_stack_wf(spec_add_layer(layers, layer)),
        spec_add_layer(layers, layer).len() >= layers.len(),
        layers.len() > 0 || layer != LayerType::Empty ==> spec_add_layer(layers, layer).len() > 0,
{
    let out = spec_add_layer(layers, layer);
    if layer != LayerType::Empty && spec_stack_wf(layers) {
        assert forall|k: int| 0 <= k < out.len() implies out[k] != LayerType::Empty by {
            if k < layers.len() {
                assert(layers[k] != LayerType::Empty);
            }
        }
        if out.contains(LayerType::Empty) {
            let k = choose|k: int| 0 <= k < out.len() && out[k] == LayerType::Empty;
            assert(out[k] != LayerType::Empty);
        }
    }
}

/// The cell built for a template character is well formed and sits at the
/// given coordinate.
proof fn lemma_build_cell_wf(x: int, y: int, c: char)
    requires
        0 <= x <= u16::MAX,
        0 <= y <= u16::MAX,
    ensures
        spec_build_cell(x, y, c).coordinate.x == x,
        spec_build_cell(x, y, c).coordinate.y == y,
        spec_build_cell(x, y, c).layers.len() > 0,
        spec_stack_wf(spec_build_cell(x, y, c).layers),
{
    let layer = spec_layer_of_char(c);
    let base: Seq<LayerType> = if layer != LayerType::RoomFloor && layer != LayerType::Door {
        seq![LayerType::RoomFloor]
    } else {
        Seq::<LayerType>::empty()
    };
    assert(spec_stack_wf(base)) by {
        if base.contains(LayerType::Empty) {
            let k = choose|k: int| 0 <= k < base.len() && base[k] == LayerType::Empty;
            assert(base[k] == LayerType::RoomFloor);
        }
    }
    lemma_add_layer_props(base, layer);
    if layer == LayerType::RoomFloor || layer == LayerType::Door {
        assert(spec_add_layer(base, layer).len() > 0);
    }
}

/// Adding one template character preserves the bounds and stack sanity of
/// the collection.
proof fn lemma_upsert_bounded(cells: Seq<CellView>, x: int, y: int, c: char, bx: int, by: int)
    requires
        cells_bounded(cells, bx, by),
        0 <= x < bx,
        0 <= y < by,
        bx <= u16::MAX + 1,
        by <= u16::MAX + 1,
    ensures
        cells_bounded(spec_upsert(cells, x, y, c), bx, by),
{
    lemma_find_cell_ensures(cells, x, y);
    match spec_find_cell(cells, x, y) {
        Some(i) => {
            lemma_add_layer_props(cells[i].layers, c_layer(c));
        },
        None => {
            lemma_build_cell_wf(x, y, c);
        },
    }
}

/// Folding one row of template characters preserves bounds and stack
/// sanity, provided the row fits inside the x bound.
proof fn lemma_row_fold_bounded(
    cells: Seq<CellView>,
    line: Seq<char>,
    y: int,
    x: int,
    bx: int,
    by: int,
)
    requires
        cells_bounded(cells, bx, by),
        x <= line.len(),
        line.len() <= bx,
        0 <= y < by,
        bx <= u16::MAX + 1,
        by <= u16::MAX + 1,
    ensures
        cells_bounded(spec_row_fold(cells, line, y, x), bx, by),
    decreases x,
{
    if x > 0 {
        lemma_row_fold_bounded(cells, line, y, x - 1, bx, by);
        if !spec_is_space(line[x - 1]) {
            lemma_upsert_bounded(spec_row_fold(cells, line, y, x - 1), x - 1, y, line[x - 1], bx, by);
        }
    }
}

/// Widening the bounds keeps a collection bounded.
proof fn lemma_bounded_widen(cells: Seq<CellView>, bx: int, by: int, bx2: int, by2: int)
    requires
        cells_bounded(cells, bx, by),
        bx <= bx2,
        by <= by2,
    ensures
        cells_bounded(cells, bx2, by2),
{
}

/// The invariant carried through one block's line fold: coordinates stay
/// within the running side length and row count, and stacks stay sane.
spec fn build_state_inv(st: BuildState) -> bool {
    &&& st.msl >= 0
    &&& st.y >= 0
    &&& cells_bounded(st.cells, st.msl, if st.y > st.msl {
        st.y
    } else {
        st.msl
    })
}

/// Folding lines preserves the build-state invariant, and the running side
/// length and row count never shrink.
proof fn lemma_lines_fold_inv(st: BuildState, lines: Seq<Seq<char>>, i: int)
    requires
        build_state_inv(st),
        0 <= i <= lines.len(),
        st.msl <= u16::MAX,
        st.y + i <= u16::MAX,
        forall|j: int| 0 <= j < lines.len() ==> (#[trigger] lines[j]).len() <= u16::MAX,
    ensures
        build_state_inv(spec_lines_fold(st, lines, i)),
        spec_lines_fold(st, lines, i).msl >= st.msl,
        spec_lines_fold(st, lines, i).y >= st.y,
        spec_lines_fold(st, lines, i).msl <= u16::MAX,
        spec_lines_fold(st, lines, i).y <= st.y + i,
    decreases i,
{
    if i > 0 {
        lemma_lines_fold_inv(st, lines, i - 1);
        let prev = spec_lines_fold(st, lines, i - 1);
        let tl = spec_trim(lines[i - 1]);
        lemma_trim_len(lines[i - 1]);
        if tl.len() > 0 {
            let msl2: int = if tl.len() > prev.msl {
                tl.len() as int
            } else {
                prev.msl
            };
            let byy: int = if prev.y > prev.msl {
                prev.y
            } else {
                prev.msl
            };
            lemma_bounded_widen(prev.cells, prev.msl, byy, msl2, if prev.y + 1 > msl2 {
                prev.y + 1
            } else {
                msl2
            });
            lemma_row_fold_bounded(prev.cells, tl, prev.y, tl.len() as int, msl2, if prev.y + 1
                > msl2 {
                prev.y + 1
            } else {
                msl2
            });
        }
    }
}

/// Folding one block preserves boundedness: afterwards every coordinate
/// lies below the returned side length.
proof fn lemma_block_fold_bounded(cells: Seq<CellView>, msl: int, text: Seq<char>)
    requires
        0 <= msl <= u16::MAX,
        cells_bounded(cells, msl, msl),
        text.len() < 65535,
    ensures
        spec_block_fold(cells, msl, text).1 >= msl,
        spec_block_fold(cells, msl, text).1 <= u16::MAX,
        cells_bounded(
            spec_block_fold(cells, msl, text).0,
            spec_block_fold(cells, msl, text).1,
            spec_block_fold(cells, msl, text).1,
        ),
{
    let lines = spec_lines(text).reverse();
    lemma_split_state_bounds(text, text.len() as int);
    assert(forall|j: int|
        0 <= j < lines.len() ==> (#[trigger] lines[j]).len() <= u16::MAX);
    assert(lines.len() <= text.len() + 1);
    let st0 = BuildState { cells, msl, y: 0 };
    lemma_lines_fold_inv(st0, lines, lines.len() as int);
    let st = spec_lines_fold(st0, lines, lines.len() as int);
    let out = spec_block_fold(cells, msl, text);
    lemma_bounded_widen(st.cells, st.msl, if st.y > st.msl {
        st.y
    } else {
        st.msl
    }, out.1, out.1);
}

/// Every room built from template text is well formed: its coordinates lie
/// inside the bounding square and its stacks are non-empty and store no
/// `Empty` layer.
pub proof fn lemma_room_of_wf(texts: Seq<Seq<char>>)
    requires
        forall|k: int| 0 <= k < texts.len() ==> (#[trigger] texts[k]).len() < 65535,
    ensures
        spec_room_wf(spec_room_of(texts)),
        0 <= spec_room_of(texts).max_side_length <= u16::MAX,
{
    lemma_blocks_fold_bounded(texts, texts.len() as int);
}

/// Folding any prefix of the blocks stays bounded.
proof fn lemma_blocks_fold_bounded(texts: Seq<Seq<char>>, k: int)
    requires
        0 <= k <= texts.len(),
        forall|j: int| 0 <= j < texts.len() ==> (#[trigger] texts[j]).len() < 65535,
    ensures
        0 <= spec_blocks_fold(texts, k).1 <= u16::MAX,
        cells_bounded(spec_blocks_fold(texts, k).0, spec_blocks_fold(texts, k).1, spec_blocks_fold(
            texts,
            k,
        ).1),
    decreases k,
{
    if k > 0 {
        lemma_blocks_fold_bounded(texts, k - 1);
        let prev = spec_blocks_fold(texts, k - 1);
        lemma_block_fold_bounded(prev.0, prev.1, texts[k - 1]);
    }
}

/// Cell-for-cell copies of the given rooms.
pub fn copy_rooms(rooms: &Vec<Room>) -> (r: Vec<Room>)
    ensures
        r@.len() == rooms@.len(),
        forall|i: int| 0 <= i < rooms@.len() ==> (#[trigger] r@[i])@ == rooms@[i]@,
{
    let mut out: Vec<Room> = Vec::new();
    let mut i: usize = 0;
    while i < rooms.len()
        invariant
            i <= rooms@.len(),
            out@.len() == i as int,
            forall|j: int| 0 <= j < i ==> (#[trigger] out@[j])@ == rooms@[j]@,
        decreases rooms@.len() - i,
    {
        let source = &rooms[i];
        let mut cells: Vec<Cell> = Vec::new();
        let mut j: usize = 0;
        while j < source.cells.len()
            invariant
                j <= source.cells@.len(),
                cells@.len() == j as int,
                forall|k: int| 0 <= k < j ==> (#[trigger] cells@[k])@ == source.cells@[k]@,
            decreases source.cells@.len() - j,
        {
            let c = &source.cells[j];
            cells.push(Cell {
                coordinate: c.coordinate,
                layers: crate::cell::copy_layers(&c.layers),
            });
            j += 1;
        }
        out.push(Room { cells, max_side_length: source.max_side_length });
        proof {
            assert(out@[i as int]@ =~~= rooms@[i as int]@);
        }
        i += 1;
    }
    out
}

/// Trimming never lengthens a line.
proof fn lemma_trim_len(line: Seq<char>)
    ensures
        spec_trim(line).len() <= line.len(),
{
    lemma_scan_bounds(line, 0);
    lemma_scan_end_bounds(line, line.len() as int);
}

/// The forward whitespace scan lands between its start and the length.
proof fn lemma_scan_bounds(line: Seq<char>, i: int)
    requires
        0 <= i <= line.len(),
    ensures
        i <= spec_scan_nonspace(line, i) <= line.len(),
    decreases line.len() - i,
{
    if i < line.len() && spec_is_space(line[i]) {
        lemma_scan_bounds(line, i + 1);
    }
}

/// The backward whitespace scan lands between 0 and its start.
proof fn lemma_scan_end_bounds(line: Seq<char>, j: int)
    requires
        0 <= j <= line.len(),
    ensures
        0 <= spec_scan_nonspace_end(line, j) <= j,
    decreases j,
{
    if j > 0 && spec_is_space(line[j - 1]) {
        lemma_scan_end_bounds(line, j - 1);
    }
}

} // verus!
