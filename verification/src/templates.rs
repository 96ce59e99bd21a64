//! The built-in room templates: four generated square rooms and several
//! irregular hand-authored shapes.

use vstd::prelude::*;

use crate::room::{spec_room_of, spec_room_wf, Room};

verus! {

/// The character at column `x` of row `y` of a square template whose
/// outermost coordinate is `max`: floor strictly inside the boundary,
/// wall on it.
pub open spec fn spec_square_char(max: int, x: int, y: int) -> char {
    if 0 < x && x < max && 0 < y && y < max {
        '='
    } else {
        '|'
    }
}

/// One row of a square template: `max + 1` cell characters and a newline.
pub open spec fn spec_square_row(max: int, y: int) -> Seq<char> {
    Seq::new(
        (max + 2) as nat,
        |i: int|
            if i == max + 1 {
                '\n'
            } else {
                spec_square_char(max, i, y)
            },
    )
}

/// The first `t` rows of a square template, bottom row first.
pub open spec fn spec_square_fold(max: int, t: int) -> Seq<char>
    decreases t,
{
    if t <= 0 {
        Seq::<char>::empty()
    } else {
        spec_square_fold(max, t - 1) + spec_square_row(max, t - 1)
    }
}

/// The full text of a square template with outermost coordinate `max`:
/// `max + 1` newline-terminated rows of `max + 1` characters each.
pub open spec fn spec_square_text(max: int) -> Seq<char> {
    spec_square_fold(max, max + 1)
}

/// Template text for a square room with the given count of floor cells per
/// side, walls included around them.
fn create_square_room_template_text(floor_count: u8) -> (r: String)
    requires
        1 <= floor_count <= 200,
    ensures
        r@ == spec_square_text(floor_count as int + 1),
        r@.len() < 65535,
{
    let max: usize = floor_count as usize + 1;
    let mut text = String::new();
    let mut y: usize = 0;
    while y <= max
        invariant
            max == floor_count as int + 1,
            2 <= max <= 201,
            y <= max + 1,
            text@.len() == y * (max + 2),
            text@ == spec_square_fold(max as int, y as int),
        decreases max + 1 - y,
    {
        let ghost row_start = text@;
        let mut x: usize = 0;
        while x <= max
            invariant
                max == floor_count as int + 1,
                2 <= max <= 201,
                y <= max,
                x <= max + 1,
                text@.len() == y * (max + 2) + x,
                row_start.len() == y * (max + 2),
                text@ == row_start + spec_square_row(max as int, y as int).subrange(0, x as int),
            decreases max + 1 - x,
        {
            if x > 0 && x < max && y > 0 && y < max {
                crate::layer::push_char(&mut text, '=');
            } else {
                crate::layer::push_char(&mut text, '|');
            }
            proof {
                assert(spec_square_row(max as int, y as int)[x as int] == spec_square_char(
                    max as int,
                    x as int,
                    y as int,
                ));
                assert(text@ =~= row_start + spec_square_row(max as int, y as int).subrange(
                    0,
                    x + 1,
                ));
            }
            x += 1;
        }
        crate::layer::push_char(&mut text, '\n');
        proof {
            assert((y + 1) * (max as int + 2) == y * (max as int + 2) + (max as int + 2))
                by (nonlinear_arith);
            assert(text@ =~= row_start + spec_square_row(max as int, y as int));
            assert(text@ =~= spec_square_fold(max as int, y + 1));
        }
        y += 1;
    }
    proof {
        assert(text@.len() == (max as int + 1) * (max as int + 2));
        assert((max as int + 1) * (max as int + 2) <= 203 * 203) by (nonlinear_arith)
            requires
                2 <= max as int <= 201,
        ;
    }
    text
}

/// The exact content of the default template mix: four generated squares
/// with two through five floor cells per side, then the five hand-authored
/// shapes, in that order. Every room is well formed, and every call yields
/// the same rooms, because each one equals a fixed parse.
pub open spec fn spec_default_rooms(rooms: Seq<Room>) -> bool {
    &&& rooms.len() == 9
    &&& rooms[0]@ == spec_room_of(seq![spec_square_text(3)])
    &&& rooms[1]@ == spec_room_of(seq![spec_square_text(4)])
    &&& rooms[2]@ == spec_room_of(seq![spec_square_text(5)])
    &&& rooms[3]@ == spec_room_of(seq![spec_square_text(6)])
    &&& rooms[4]@ == spec_room_of(seq!["||&&&|\n|====|\n|====|\n|====|\n|====|\n||||||"@])
    &&& rooms[5]@ == spec_room_of(
        seq![
            "||||||||||\n|========|\n|========|\n|=======||\n|======||\n|======|\n|====|||\n|====|\n|===||\n|||||"@,
        ],
    )
    &&& rooms[6]@ == spec_room_of(
        seq![
            "||||||||||||||||\n|==============|\n|=============|\n|==========||||\n|========|||\n|========|\n|======|||\n|======|\n|====|||\n|====|\n|===||\n|===|\n|==||\n|==|\n|==|\n||||"@,
        ],
    )
    &&& rooms[7]@ == spec_room_of(seq!["||||||\n|====|\n|====|\n|===||\n|==||\n|==|\n||||"@])
    &&& rooms[8]@ == spec_room_of(seq!["|||||\n|===\n||\n|"@])
    &&& rooms[0]@.max_side_length == 4
    &&& rooms[1]@.max_side_length == 5
    &&& rooms[2]@.max_side_length == 6
    &&& rooms[3]@.max_side_length == 7
    &&& rooms[4]@.max_side_length == 6
    &&& rooms[5]@.max_side_length == 10
    &&& rooms[6]@.max_side_length == 16
    &&& rooms[7]@.max_side_length == 7
    &&& rooms[8]@.max_side_length == 5
    &&& forall|i: int| 0 <= i < rooms.len() ==> spec_room_wf((#[trigger] rooms[i])@)
    &&& forall|i: int| 0 <= i < rooms.len() ==> (#[trigger] rooms[i])@.max_side_length <= u16::MAX
}

/// The default mix of room templates: generated squares of four sizes plus
/// several irregular hand-authored shapes, each pinned to its template
/// text.
pub fn all_room_templates() -> (r: Vec<Room>)
    ensures
        spec_default_rooms(r@),
{
    let broken = "||&&&|\n|====|\n|====|\n|====|\n|====|\n||||||";
    let slanted = "||||||||||\n|========|\n|========|\n|=======||\n|======||\n|======|\n|====|||\n|====|\n|===||\n|||||";
    let tower = "||||||||||||||||\n|==============|\n|=============|\n|==========||||\n|========|||\n|========|\n|======|||\n|======|\n|====|||\n|====|\n|===||\n|===|\n|==||\n|==|\n|==|\n||||";
    let nook = "||||||\n|====|\n|====|\n|===||\n|==||\n|==|\n||||";
    let sliver = "|||||\n|===\n||\n|";
    proof {
        reveal_strlit("||&&&|\n|====|\n|====|\n|====|\n|====|\n||||||");
        reveal_strlit(
            "||||||||||\n|========|\n|========|\n|=======||\n|======||\n|======|\n|====|||\n|====|\n|===||\n|||||",
        );
        reveal_strlit(
            "||||||||||||||||\n|==============|\n|=============|\n|==========||||\n|========|||\n|========|\n|======|||\n|======|\n|====|||\n|====|\n|===||\n|===|\n|==||\n|==|\n|==|\n||||",
        );
        reveal_strlit("||||||\n|====|\n|====|\n|===||\n|==||\n|==|\n||||");
        reveal_strlit("|||||\n|===\n||\n|");
    }
    let mut rooms: Vec<Room> = Vec::new();
    push_template_room(&mut rooms, &create_square_room_template_text(2));
    push_template_room(&mut rooms, &create_square_room_template_text(3));
    push_template_room(&mut rooms, &create_square_room_template_text(4));
    push_template_room(&mut rooms, &create_square_room_template_text(5));
    push_template_room(&mut rooms, broken);
    push_template_room(&mut rooms, slanted);
    push_template_room(&mut rooms, tower);
    push_template_room(&mut rooms, nook);
    push_template_room(&mut rooms, sliver);
    proof {
        lemma_msl_square_2();
        lemma_msl_square_3();
        lemma_msl_square_4();
        lemma_msl_square_5();
        lemma_msl_broken();
        lemma_msl_slanted();
        lemma_msl_tower();
        lemma_msl_nook();
        lemma_msl_sliver();
    }
    rooms
}

/// Parse one template text and append the room, which parsing leaves well
/// formed.
fn push_template_room(rooms: &mut Vec<Room>, text: &str)
    requires
        text@.len() < 65535,
    ensures
        final(rooms)@.len() == old(rooms)@.len() + 1,
        forall|i: int| 0 <= i < old(rooms)@.len() ==> final(rooms)@[i] == old(rooms)@[i],
        final(rooms)@.last()@ == spec_room_of(seq![text@]),
        spec_room_wf(final(rooms)@.last()@),
        final(rooms)@.last()@.max_side_length <= u16::MAX,
{
    let room = Room::from_template_string(text);
    proof {
        crate::room::lemma_room_of_wf(seq![text@]);
    }
    rooms.push(room);
}

/// A named set of room templates for the generator to draw from.
#[derive(Clone, Debug)]
pub struct RoomTemplates {
    pub rooms: Vec<Room>,
}

impl Default for RoomTemplates {
    /// The built-in template mix.
    fn default() -> (r: Self)
        ensures
            spec_default_rooms(r.rooms@),
    {
        Self { rooms: all_room_templates() }
    }
}

/// The bounding side length of the generated square with 2 floor
/// cells per side, read off its line structure.
proof fn lemma_msl_square_2()
    ensures
        spec_room_of(seq![spec_square_text(3)]).max_side_length == 4,
{
    reveal_strlit("||||\n|==|\n|==|\n||||\n");
    reveal_with_fuel(spec_square_fold, 6);
    assert(spec_square_text(3) =~= "||||\n|==|\n|==|\n||||\n"@);
    let t = spec_square_text(3);
    let line0 = t.subrange(0, 4);
    let line1 = t.subrange(5, 9);
    let line2 = t.subrange(10, 14);
    let line3 = t.subrange(15, 19);
    let line4 = t.subrange(20, 20);
    let rest0 = t;
    let rest1 = t.subrange(5, 20);
    let rest2 = t.subrange(10, 20);
    let rest3 = t.subrange(15, 20);
    let rest4 = t.subrange(20, 20);
    assert(rest0 =~= line0 + seq!['\n'] + rest1);
    assert(forall|k: int| 0 <= k < line0.len() ==> line0[k] != '\n');
    crate::room::lemma_lines_peel(line0, rest1, rest0);
    assert(rest1 =~= line1 + seq!['\n'] + rest2);
    assert(forall|k: int| 0 <= k < line1.len() ==> line1[k] != '\n');
    crate::room::lemma_lines_peel(line1, rest2, rest1);
    assert(rest2 =~= line2 + seq!['\n'] + rest3);
    assert(forall|k: int| 0 <= k < line2.len() ==> line2[k] != '\n');
    crate::room::lemma_lines_peel(line2, rest3, rest2);
    assert(rest3 =~= line3 + seq!['\n'] + rest4);
    assert(forall|k: int| 0 <= k < line3.len() ==> line3[k] != '\n');
    crate::room::lemma_lines_peel(line3, rest4, rest3);
    assert(line4 =~= rest4);
    assert(forall|k: int| 0 <= k < line4.len() ==> line4[k] != '\n');
    crate::room::lemma_lines_single(rest4);
    assert(crate::room::spec_lines(t) =~~= seq![line0, line1, line2, line3, line4]);
    reveal_with_fuel(crate::room::spec_lines_fold, 8);
    reveal_with_fuel(crate::room::spec_scan_nonspace, 3);
    reveal_with_fuel(crate::room::spec_scan_nonspace_end, 3);
    reveal_with_fuel(crate::room::spec_blocks_fold, 2);
    assert(spec_room_of(seq![t]).max_side_length == 4);
}

/// The bounding side length of the generated square with 3 floor
/// cells per side, read off its line structure.
proof fn lemma_msl_square_3()
    ensures
        spec_room_of(seq![spec_square_text(4)]).max_side_length == 5,
{
    reveal_strlit("|||||\n|===|\n|===|\n|===|\n|||||\n");
    reveal_with_fuel(spec_square_fold, 7);
    assert(spec_square_text(4) =~= "|||||\n|===|\n|===|\n|===|\n|||||\n"@);
    let t = spec_square_text(4);
    let line0 = t.subrange(0, 5);
    let line1 = t.subrange(6, 11);
    let line2 = t.subrange(12, 17);
    let line3 = t.subrange(18, 23);
    let line4 = t.subrange(24, 29);
    let line5 = t.subrange(30, 30);
    let rest0 = t;
    let rest1 = t.subrange(6, 30);
    let rest2 = t.subrange(12, 30);
    let rest3 = t.subrange(18, 30);
    let rest4 = t.subrange(24, 30);
    let rest5 = t.subrange(30, 30);
    assert(rest0 =~= line0 + seq!['\n'] + rest1);
    assert(forall|k: int| 0 <= k < line0.len() ==> line0[k] != '\n');
    crate::room::lemma_lines_peel(line0, rest1, rest0);
    assert(rest1 =~= line1 + seq!['\n'] + rest2);
    assert(forall|k: int| 0 <= k < line1.len() ==> line1[k] != '\n');
    crate::room::lemma_lines_peel(line1, rest2, rest1);
    assert(rest2 =~= line2 + seq!['\n'] + rest3);
    assert(forall|k: int| 0 <= k < line2.len() ==> line2[k] != '\n');
    crate::room::lemma_lines_peel(line2, rest3, rest2);
    assert(rest3 =~= line3 + seq!['\n'] + rest4);
    assert(forall|k: int| 0 <= k < line3.len() ==> line3[k] != '\n');
    crate::room::lemma_lines_peel(line3, rest4, rest3);
    assert(rest4 =~= line4 + seq!['\n'] + rest5);
    assert(forall|k: int| 0 <= k < line4.len() ==> line4[k] != '\n');
    crate::room::lemma_lines_peel(line4, rest5, rest4);
    assert(line5 =~= rest5);
    assert(forall|k: int| 0 <= k < line5.len() ==> line5[k] != '\n');
    crate::room::lemma_lines_single(rest5);
    assert(crate::room::spec_lines(t) =~~= seq![line0, line1, line2, line3, line4, line5]);
    reveal_with_fuel(crate::room::spec_lines_fold, 9);
    reveal_with_fuel(crate::room::spec_scan_nonspace, 3);
    reveal_with_fuel(crate::room::spec_scan_nonspace_end, 3);
    reveal_with_fuel(crate::room::spec_blocks_fold, 2);
    assert(spec_room_of(seq![t]).max_side_length == 5);
}

/// The bounding side length of the generated square with 4 floor
/// cells per side, read off its line structure.
proof fn lemma_msl_square_4()
    ensures
        spec_room_of(seq![spec_square_text(5)]).max_side_length == 6,
{
    reveal_strlit("||||||\n|====|\n|====|\n|====|\n|====|\n||||||\n");
    reveal_with_fuel(spec_square_fold, 8);
    assert(spec_square_text(5) =~= "||||||\n|====|\n|====|\n|====|\n|====|\n||||||\n"@);
    let t = spec_square_text(5);
    let line0 = t.subrange(0, 6);
    let line1 = t.subrange(7, 13);
    let line2 = t.subrange(14, 20);
    let line3 = t.subrange(21, 27);
    let line4 = t.subrange(28, 34);
    let line5 = t.subrange(35, 41);
    let line6 = t.subrange(42, 42);
    let rest0 = t;
    let rest1 = t.subrange(7, 42);
    let rest2 = t.subrange(14, 42);
    let rest3 = t.subrange(21, 42);
    let rest4 = t.subrange(28, 42);
    let rest5 = t.subrange(35, 42);
    let rest6 = t.subrange(42, 42);
    assert(rest0 =~= line0 + seq!['\n'] + rest1);
    assert(forall|k: int| 0 <= k < line0.len() ==> line0[k] != '\n');
    crate::room::lemma_lines_peel(line0, rest1, rest0);
    assert(rest1 =~= line1 + seq!['\n'] + rest2);
    assert(forall|k: int| 0 <= k < line1.len() ==> line1[k] != '\n');
    crate::room::lemma_lines_peel(line1, rest2, rest1);
    assert(rest2 =~= line2 + seq!['\n'] + rest3);
    assert(forall|k: int| 0 <= k < line2.len() ==> line2[k] != '\n');
    crate::room::lemma_lines_peel(line2, rest3, rest2);
    assert(rest3 =~= line3 + seq!['\n'] + rest4);
    assert(forall|k: int| 0 <= k < line3.len() ==> line3[k] != '\n');
    crate::room::lemma_lines_peel(line3, rest4, rest3);
    assert(rest4 =~= line4 + seq!['\n'] + rest5);
    assert(forall|k: int| 0 <= k < line4.len() ==> line4[k] != '\n');
    crate::room::lemma_lines_peel(line4, rest5, rest4);
    assert(rest5 =~= line5 + seq!['\n'] + rest6);
    assert(forall|k: int| 0 <= k < line5.len() ==> line5[k] != '\n');
    crate::room::lemma_lines_peel(line5, rest6, rest5);
    assert(line6 =~= rest6);
    assert(forall|k: int| 0 <= k < line6.len() ==> line6[k] != '\n');
    crate::room::lemma_lines_single(rest6);
    assert(crate::room::spec_lines(t) =~~= seq![line0, line1, line2, line3, line4, line5, line6]);
    reveal_with_fuel(crate::room::spec_lines_fold, 10);
    reveal_with_fuel(crate::room::spec_scan_nonspace, 3);
    reveal_with_fuel(crate::room::spec_scan_nonspace_end, 3);
    reveal_with_fuel(crate::room::spec_blocks_fold, 2);
    assert(spec_room_of(seq![t]).max_side_length == 6);
}

/// The bounding side length of the generated square with 5 floor
/// cells per side, read off its line structure.
proof fn lemma_msl_square_5()
    ensures
        spec_room_of(seq![spec_square_text(6)]).max_side_length == 7,
{
    reveal_strlit("|||||||\n|=====|\n|=====|\n|=====|\n|=====|\n|=====|\n|||||||\n");
    reveal_with_fuel(spec_square_fold, 9);
    assert(spec_square_text(6) =~= "|||||||\n|=====|\n|=====|\n|=====|\n|=====|\n|=====|\n|||||||\n"@);
    let t = spec_square_text(6);
    let line0 = t.subrange(0, 7);
    let line1 = t.subrange(8, 15);
    let line2 = t.subrange(16, 23);
    let line3 = t.subrange(24, 31);
    let line4 = t.subrange(32, 39);
    let line5 = t.subrange(40, 47);
    let line6 = t.subrange(48, 55);
    let line7 = t.subrange(56, 56);
    let rest0 = t;
    let rest1 = t.subrange(8, 56);
    let rest2 = t.subrange(16, 56);
    let rest3 = t.subrange(24, 56);
    let rest4 = t.subrange(32, 56);
    let rest5 = t.subrange(40, 56);
    let rest6 = t.subrange(48, 56);
    let rest7 = t.subrange(56, 56);
    assert(rest0 =~= line0 + seq!['\n'] + rest1);
    assert(forall|k: int| 0 <= k < line0.len() ==> line0[k] != '\n');
    crate::room::lemma_lines_peel(line0, rest1, rest0);
    assert(rest1 =~= line1 + seq!['\n'] + rest2);
    assert(forall|k: int| 0 <= k < line1.len() ==> line1[k] != '\n');
    crate::room::lemma_lines_peel(line1, rest2, rest1);
    assert(rest2 =~= line2 + seq!['\n'] + rest3);
    assert(forall|k: int| 0 <= k < line2.len() ==> line2[k] != '\n');
    crate::room::lemma_lines_peel(line2, rest3, rest2);
    assert(rest3 =~= line3 + seq!['\n'] + rest4);
    assert(forall|k: int| 0 <= k < line3.len() ==> line3[k] != '\n');
    crate::room::lemma_lines_peel(line3, rest4, rest3);
    assert(rest4 =~= line4 + seq!['\n'] + rest5);
    assert(forall|k: int| 0 <= k < line4.len() ==> line4[k] != '\n');
    crate::room::lemma_lines_peel(line4, rest5, rest4);
    assert(rest5 =~= line5 + seq!['\n'] + rest6);
    assert(forall|k: int| 0 <= k < line5.len() ==> line5[k] != '\n');
    crate::room::lemma_lines_peel(line5, rest6, rest5);
    assert(rest6 =~= line6 + seq!['\n'] + rest7);
    assert(forall|k: int| 0 <= k < line6.len() ==> line6[k] != '\n');
    crate::room::lemma_lines_peel(line6, rest7, rest6);
    assert(line7 =~= rest7);
    assert(forall|k: int| 0 <= k < line7.len() ==> line7[k] != '\n');
    crate::room::lemma_lines_single(rest7);
    assert(crate::room::spec_lines(t) =~~= seq![line0, line1, line2, line3, line4, line5, line6, line7]);
    reveal_with_fuel(crate::room::spec_lines_fold, 11);
    reveal_with_fuel(crate::room::spec_scan_nonspace, 3);
    reveal_with_fuel(crate::room::spec_scan_nonspace_end, 3);
    reveal_with_fuel(crate::room::spec_blocks_fold, 2);
    assert(spec_room_of(seq![t]).max_side_length == 7);
}

/// The bounding side length of the broken template, read off its line
/// structure.
proof fn lemma_msl_broken()
    ensures
        spec_room_of(seq!["||&&&|\n|====|\n|====|\n|====|\n|====|\n||||||"@]).max_side_length == 6,
{
    reveal_strlit("||&&&|\n|====|\n|====|\n|====|\n|====|\n||||||");
    let t = "||&&&|\n|====|\n|====|\n|====|\n|====|\n||||||"@;
    let line0 = t.subrange(0, 6);
    let line1 = t.subrange(7, 13);
    let line2 = t.subrange(14, 20);
    let line3 = t.subrange(21, 27);
    let line4 = t.subrange(28, 34);
    let line5 = t.subrange(35, 41);
    let rest0 = t;
    let rest1 = t.subrange(7, 41);
    let rest2 = t.subrange(14, 41);
    let rest3 = t.subrange(21, 41);
    let rest4 = t.subrange(28, 41);
    let rest5 = t.subrange(35, 41);
    assert(rest0 =~= line0 + seq!['\n'] + rest1);
    assert(forall|k: int| 0 <= k < line0.len() ==> line0[k] != '\n');
    crate::room::lemma_lines_peel(line0, rest1, rest0);
    assert(rest1 =~= line1 + seq!['\n'] + rest2);
    assert(forall|k: int| 0 <= k < line1.len() ==> line1[k] != '\n');
    crate::room::lemma_lines_peel(line1, rest2, rest1);
    assert(rest2 =~= line2 + seq!['\n'] + rest3);
    assert(forall|k: int| 0 <= k < line2.len() ==> line2[k] != '\n');
    crate::room::lemma_lines_peel(line2, rest3, rest2);
    assert(rest3 =~= line3 + seq!['\n'] + rest4);
    assert(forall|k: int| 0 <= k < line3.len() ==> line3[k] != '\n');
    crate::room::lemma_lines_peel(line3, rest4, rest3);
    assert(rest4 =~= line4 + seq!['\n'] + rest5);
    assert(forall|k: int| 0 <= k < line4.len() ==> line4[k] != '\n');
    crate::room::lemma_lines_peel(line4, rest5, rest4);
    assert(line5 =~= rest5);
    assert(forall|k: int| 0 <= k < line5.len() ==> line5[k] != '\n');
    crate::room::lemma_lines_single(rest5);
    assert(crate::room::spec_lines(t) =~~= seq![line0, line1, line2, line3, line4, line5]);
    reveal_with_fuel(crate::room::spec_lines_fold, 9);
    reveal_with_fuel(crate::room::spec_scan_nonspace, 3);
    reveal_with_fuel(crate::room::spec_scan_nonspace_end, 3);
    reveal_with_fuel(crate::room::spec_blocks_fold, 2);
    assert(spec_room_of(seq![t]).max_side_length == 6);
}

/// The bounding side length of the slanted template, read off its line
/// structure.
proof fn lemma_msl_slanted()
    ensures
        spec_room_of(seq!["||||||||||\n|========|\n|========|\n|=======||\n|======||\n|======|\n|====|||\n|====|\n|===||\n|||||"@]).max_side_length == 10,
{
    reveal_strlit("||||||||||\n|========|\n|========|\n|=======||\n|======||\n|======|\n|====|||\n|====|\n|===||\n|||||");
    let t = "||||||||||\n|========|\n|========|\n|=======||\n|======||\n|======|\n|====|||\n|====|\n|===||\n|||||"@;
    let line0 = t.subrange(0, 10);
    let line1 = t.subrange(11, 21);
    let line2 = t.subrange(22, 32);
    let line3 = t.subrange(33, 43);
    let line4 = t.subrange(44, 53);
    let line5 = t.subrange(54, 62);
    let line6 = t.subrange(63, 71);
    let line7 = t.subrange(72, 78);
    let line8 = t.subrange(79, 85);
    let line9 = t.subrange(86, 91);
    let rest0 = t;
    let rest1 = t.subrange(11, 91);
    let rest2 = t.subrange(22, 91);
    let rest3 = t.subrange(33, 91);
    let rest4 = t.subrange(44, 91);
    let rest5 = t.subrange(54, 91);
    let rest6 = t.subrange(63, 91);
    let rest7 = t.subrange(72, 91);
    let rest8 = t.subrange(79, 91);
    let rest9 = t.subrange(86, 91);
    assert(rest0 =~= line0 + seq!['\n'] + rest1);
    assert(forall|k: int| 0 <= k < line0.len() ==> line0[k] != '\n');
    crate::room::lemma_lines_peel(line0, rest1, rest0);
    assert(rest1 =~= line1 + seq!['\n'] + rest2);
    assert(forall|k: int| 0 <= k < line1.len() ==> line1[k] != '\n');
    crate::room::lemma_lines_peel(line1, rest2, rest1);
    assert(rest2 =~= line2 + seq!['\n'] + rest3);
    assert(forall|k: int| 0 <= k < line2.len() ==> line2[k] != '\n');
    crate::room::lemma_lines_peel(line2, rest3, rest2);
    assert(rest3 =~= line3 + seq!['\n'] + rest4);
    assert(forall|k: int| 0 <= k < line3.len() ==> line3[k] != '\n');
    crate::room::lemma_lines_peel(line3, rest4, rest3);
    assert(rest4 =~= line4 + seq!['\n'] + rest5);
    assert(forall|k: int| 0 <= k < line4.len() ==> line4[k] != '\n');
    crate::room::lemma_lines_peel(line4, rest5, rest4);
    assert(rest5 =~= line5 + seq!['\n'] + rest6);
    assert(forall|k: int| 0 <= k < line5.len() ==> line5[k] != '\n');
    crate::room::lemma_lines_peel(line5, rest6, rest5);
    assert(rest6 =~= line6 + seq!['\n'] + rest7);
    assert(forall|k: int| 0 <= k < line6.len() ==> line6[k] != '\n');
    crate::room::lemma_lines_peel(line6, rest7, rest6);
    assert(rest7 =~= line7 + seq!['\n'] + rest8);
    assert(forall|k: int| 0 <= k < line7.len() ==> line7[k] != '\n');
    crate::room::lemma_lines_peel(line7, rest8, rest7);
    assert(rest8 =~= line8 + seq!['\n'] + rest9);
    assert(forall|k: int| 0 <= k < line8.len() ==> line8[k] != '\n');
    crate::room::lemma_lines_peel(line8, rest9, rest8);
    assert(line9 =~= rest9);
    assert(forall|k: int| 0 <= k < line9.len() ==> line9[k] != '\n');
    crate::room::lemma_lines_single(rest9);
    assert(crate::room::spec_lines(t) =~~= seq![line0, line1, line2, line3, line4, line5, line6, line7, line8, line9]);
    reveal_with_fuel(crate::room::spec_lines_fold, 13);
    reveal_with_fuel(crate::room::spec_scan_nonspace, 3);
    reveal_with_fuel(crate::room::spec_scan_nonspace_end, 3);
    reveal_with_fuel(crate::room::spec_blocks_fold, 2);
    assert(spec_room_of(seq![t]).max_side_length == 10);
}

/// The bounding side length of the tower template, read off its line
/// structure.
proof fn lemma_msl_tower()
    ensures
        spec_room_of(seq!["||||||||||||||||\n|==============|\n|=============|\n|==========||||\n|========|||\n|========|\n|======|||\n|======|\n|====|||\n|====|\n|===||\n|===|\n|==||\n|==|\n|==|\n||||"@]).max_side_length == 16,
{
    reveal_strlit("||||||||||||||||\n|==============|\n|=============|\n|==========||||\n|========|||\n|========|\n|======|||\n|======|\n|====|||\n|====|\n|===||\n|===|\n|==||\n|==|\n|==|\n||||");
    let t = "||||||||||||||||\n|==============|\n|=============|\n|==========||||\n|========|||\n|========|\n|======|||\n|======|\n|====|||\n|====|\n|===||\n|===|\n|==||\n|==|\n|==|\n||||"@;
    let line0 = t.subrange(0, 16);
    let line1 = t.subrange(17, 33);
    let line2 = t.subrange(34, 49);
    let line3 = t.subrange(50, 65);
    let line4 = t.subrange(66, 78);
    let line5 = t.subrange(79, 89);
    let line6 = t.subrange(90, 100);
    let line7 = t.subrange(101, 109);
    let line8 = t.subrange(110, 118);
    let line9 = t.subrange(119, 125);
    let line10 = t.subrange(126, 132);
    let line11 = t.subrange(133, 138);
    let line12 = t.subrange(139, 144);
    let line13 = t.subrange(145, 149);
    let line14 = t.subrange(150, 154);
    let line15 = t.subrange(155, 159);
    let rest0 = t;
    let rest1 = t.subrange(17, 159);
    let rest2 = t.subrange(34, 159);
    let rest3 = t.subrange(50, 159);
    let rest4 = t.subrange(66, 159);
    let rest5 = t.subrange(79, 159);
    let rest6 = t.subrange(90, 159);
    let rest7 = t.subrange(101, 159);
    let rest8 = t.subrange(110, 159);
    let rest9 = t.subrange(119, 159);
    let rest10 = t.subrange(126, 159);
    let rest11 = t.subrange(133, 159);
    let rest12 = t.subrange(139, 159);
    let rest13 = t.subrange(145, 159);
    let rest14 = t.subrange(150, 159);
    let rest15 = t.subrange(155, 159);
    assert(rest0 =~= line0 + seq!['\n'] + rest1);
    assert(forall|k: int| 0 <= k < line0.len() ==> line0[k] != '\n');
    crate::room::lemma_lines_peel(line0, rest1, rest0);
    assert(rest1 =~= line1 + seq!['\n'] + rest2);
    assert(forall|k: int| 0 <= k < line1.len() ==> line1[k] != '\n');
    crate::room::lemma_lines_peel(line1, rest2, rest1);
    assert(rest2 =~= line2 + seq!['\n'] + rest3);
    assert(forall|k: int| 0 <= k < line2.len() ==> line2[k] != '\n');
    crate::room::lemma_lines_peel(line2, rest3, rest2);
    assert(rest3 =~= line3 + seq!['\n'] + rest4);
    assert(forall|k: int| 0 <= k < line3.len() ==> line3[k] != '\n');
    crate::room::lemma_lines_peel(line3, rest4, rest3);
    assert(rest4 =~= line4 + seq!['\n'] + rest5);
    assert(forall|k: int| 0 <= k < line4.len() ==> line4[k] != '\n');
    crate::room::lemma_lines_peel(line4, rest5, rest4);
    assert(rest5 =~= line5 + seq!['\n'] + rest6);
    assert(forall|k: int| 0 <= k < line5.len() ==> line5[k] != '\n');
    crate::room::lemma_lines_peel(line5, rest6, rest5);
    assert(rest6 =~= line6 + seq!['\n'] + rest7);
    assert(forall|k: int| 0 <= k < line6.len() ==> line6[k] != '\n');
    crate::room::lemma_lines_peel(line6, rest7, rest6);
    assert(rest7 =~= line7 + seq!['\n'] + rest8);
    assert(forall|k: int| 0 <= k < line7.len() ==> line7[k] != '\n');
    crate::room::lemma_lines_peel(line7, rest8, rest7);
    assert(rest8 =~= line8 + seq!['\n'] + rest9);
    assert(forall|k: int| 0 <= k < line8.len() ==> line8[k] != '\n');
    crate::room::lemma_lines_peel(line8, rest9, rest8);
    assert(rest9 =~= line9 + seq!['\n'] + rest10);
    assert(forall|k: int| 0 <= k < line9.len() ==> line9[k] != '\n');
    crate::room::lemma_lines_peel(line9, rest10, rest9);
    assert(rest10 =~= line10 + seq!['\n'] + rest11);
    assert(forall|k: int| 0 <= k < line10.len() ==> line10[k] != '\n');
    crate::room::lemma_lines_peel(line10, rest11, rest10);
    assert(rest11 =~= line11 + seq!['\n'] + rest12);
    assert(forall|k: int| 0 <= k < line11.len() ==> line11[k] != '\n');
    crate::room::lemma_lines_peel(line11, rest12, rest11);
    assert(rest12 =~= line12 + seq!['\n'] + rest13);
    assert(forall|k: int| 0 <= k < line12.len() ==> line12[k] != '\n');
    crate::room::lemma_lines_peel(line12, rest13, rest12);
    assert(rest13 =~= line13 + seq!['\n'] + rest14);
    assert(forall|k: int| 0 <= k < line13.len() ==> line13[k] != '\n');
    crate::room::lemma_lines_peel(line13, rest14, rest13);
    assert(rest14 =~= line14 + seq!['\n'] + rest15);
    assert(forall|k: int| 0 <= k < line14.len() ==> line14[k] != '\n');
    crate::room::lemma_lines_peel(line14, rest15, rest14);
    assert(line15 =~= rest15);
    assert(forall|k: int| 0 <= k < line15.len() ==> line15[k] != '\n');
    crate::room::lemma_lines_single(rest15);
    assert(crate::room::spec_lines(t) =~~= seq![line0, line1, line2, line3, line4, line5, line6, line7, line8, line9, line10, line11, line12, line13, line14, line15]);
    reveal_with_fuel(crate::room::spec_lines_fold, 19);
    reveal_with_fuel(crate::room::spec_scan_nonspace, 3);
    reveal_with_fuel(crate::room::spec_scan_nonspace_end, 3);
    reveal_with_fuel(crate::room::spec_blocks_fold, 2);
    assert(spec_room_of(seq![t]).max_side_length == 16);
}

/// The bounding side length of the nook template, read off its line
/// structure.
proof fn lemma_msl_nook()
    ensures
        spec_room_of(seq!["||||||\n|====|\n|====|\n|===||\n|==||\n|==|\n||||"@]).max_side_length == 7,
{
    reveal_strlit("||||||\n|====|\n|====|\n|===||\n|==||\n|==|\n||||");
    let t = "||||||\n|====|\n|====|\n|===||\n|==||\n|==|\n||||"@;
    let line0 = t.subrange(0, 6);
    let line1 = t.subrange(7, 13);
    let line2 = t.subrange(14, 20);
    let line3 = t.subrange(21, 27);
    let line4 = t.subrange(28, 33);
    let line5 = t.subrange(34, 38);
    let line6 = t.subrange(39, 43);
    let rest0 = t;
    let rest1 = t.subrange(7, 43);
    let rest2 = t.subrange(14, 43);
    let rest3 = t.subrange(21, 43);
    let rest4 = t.subrange(28, 43);
    let rest5 = t.subrange(34, 43);
    let rest6 = t.subrange(39, 43);
    assert(rest0 =~= line0 + seq!['\n'] + rest1);
    assert(forall|k: int| 0 <= k < line0.len() ==> line0[k] != '\n');
    crate::room::lemma_lines_peel(line0, rest1, rest0);
    assert(rest1 =~= line1 + seq!['\n'] + rest2);
    assert(forall|k: int| 0 <= k < line1.len() ==> line1[k] != '\n');
    crate::room::lemma_lines_peel(line1, rest2, rest1);
    assert(rest2 =~= line2 + seq!['\n'] + rest3);
    assert(forall|k: int| 0 <= k < line2.len() ==> line2[k] != '\n');
    crate::room::lemma_lines_peel(line2, rest3, rest2);
    assert(rest3 =~= line3 + seq!['\n'] + rest4);
    assert(forall|k: int| 0 <= k < line3.len() ==> line3[k] != '\n');
    crate::room::lemma_lines_peel(line3, rest4, rest3);
    assert(rest4 =~= line4 + seq!['\n'] + rest5);
    assert(forall|k: int| 0 <= k < line4.len() ==> line4[k] != '\n');
    crate::room::lemma_lines_peel(line4, rest5, rest4);
    assert(rest5 =~= line5 + seq!['\n'] + rest6);
    assert(forall|k: int| 0 <= k < line5.len() ==> line5[k] != '\n');
    crate::room::lemma_lines_peel(line5, rest6, rest5);
    assert(line6 =~= rest6);
    assert(forall|k: int| 0 <= k < line6.len() ==> line6[k] != '\n');
    crate::room::lemma_lines_single(rest6);
    assert(crate::room::spec_lines(t) =~~= seq![line0, line1, line2, line3, line4, line5, line6]);
    reveal_with_fuel(crate::room::spec_lines_fold, 10);
    reveal_with_fuel(crate::room::spec_scan_nonspace, 3);
    reveal_with_fuel(crate::room::spec_scan_nonspace_end, 3);
    reveal_with_fuel(crate::room::spec_blocks_fold, 2);
    assert(spec_room_of(seq![t]).max_side_length == 7);
}

/// The bounding side length of the sliver template, read off its line
/// structure.
proof fn lemma_msl_sliver()
    ensures
        spec_room_of(seq!["|||||\n|===\n||\n|"@]).max_side_length == 5,
{
    reveal_strlit("|||||\n|===\n||\n|");
    let t = "|||||\n|===\n||\n|"@;
    let line0 = t.subrange(0, 5);
    let line1 = t.subrange(6, 10);
    let line2 = t.subrange(11, 13);
    let line3 = t.subrange(14, 15);
    let rest0 = t;
    let rest1 = t.subrange(6, 15);
    let rest2 = t.subrange(11, 15);
    let rest3 = t.subrange(14, 15);
    assert(rest0 =~= line0 + seq!['\n'] + rest1);
    assert(forall|k: int| 0 <= k < line0.len() ==> line0[k] != '\n');
    crate::room::lemma_lines_peel(line0, rest1, rest0);
    assert(rest1 =~= line1 + seq!['\n'] + rest2);
    assert(forall|k: int| 0 <= k < line1.len() ==> line1[k] != '\n');
    crate::room::lemma_lines_peel(line1, rest2, rest1);
    assert(rest2 =~= line2 + seq!['\n'] + rest3);
    assert(forall|k: int| 0 <= k < line2.len() ==> line2[k] != '\n');
    crate::room::lemma_lines_peel(line2, rest3, rest2);
    assert(line3 =~= rest3);
    assert(forall|k: int| 0 <= k < line3.len() ==> line3[k] != '\n');
    crate::room::lemma_lines_single(rest3);
    assert(crate::room::spec_lines(t) =~~= seq![line0, line1, line2, line3]);
    reveal_with_fuel(crate::room::spec_lines_fold, 7);
    reveal_with_fuel(crate::room::spec_scan_nonspace, 3);
    reveal_with_fuel(crate::room::spec_scan_nonspace_end, 3);
    reveal_with_fuel(crate::room::spec_blocks_fold, 2);
    assert(spec_room_of(seq![t]).max_side_length == 5);
}

} // verus!
