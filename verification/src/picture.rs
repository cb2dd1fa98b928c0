//! Reading the picture of a tree back.
//!
//! In the picture every node but the root has a block whose first line
//! bears a connector; what stands before the connector tells how deep the
//! node hangs, and what stands behind it is the first line of the node's
//! label.  The root stands below all blocks.  Read from the bottom up, the
//! first lines are the nodes in the order in which the tree was walked, so
//! that every node hangs from the nearest node before it that is less deep.

use vstd::prelude::*;
use crate::color_cycle;
use crate::color_cycle::Color;
use crate::indent;
use crate::outline;
use crate::outline::OutlineRow;
use crate::text;
use crate::tree;
use crate::tree::Node;
use crate::tree::WithChildren;

verus! {

/// No character of the text is a line feed.
pub open spec fn one_line(s: Seq<char>) -> bool {
    forall|i: int| 0 <= i < s.len() ==> #[trigger] s[i] != '\n'
}

/// Every text is one line.
pub open spec fn all_one_line(lines: Seq<Seq<char>>) -> bool {
    forall|i: int| 0 <= i < lines.len() ==> one_line(#[trigger] lines[i])
}

/// The lines of all the texts, one text after the other.
pub open spec fn flat_lines(parts: Seq<Seq<char>>) -> Seq<Seq<char>>
    decreases parts.len(),
{
    if parts.len() == 0 {
        Seq::empty()
    } else {
        flat_lines(parts.drop_last()) + text::split_spec(parts.last(), '\n')
    }
}

/// The pieces of a text hold no separator.
pub proof fn lemma_split_pieces(s: Seq<char>)
    ensures
        text::split_spec(s, '\n').len() >= 1,
        all_one_line(text::split_spec(s, '\n')),
    decreases s.len(),
{
    if s.len() > 0 {
        lemma_split_pieces(s.drop_last());
        let init = text::split_spec(s.drop_last(), '\n');
        let all = text::split_spec(s, '\n');
        assert forall|i: int| 0 <= i < all.len() implies one_line(#[trigger] all[i]) by {
            if i < init.len() - 1 {
                assert(all[i] == init[i]);
            } else if s.last() == '\n' {
                if i < init.len() {
                    assert(all[i] == init[i]);
                }
            } else {
                assert(one_line(init[i]));
            }
        }
    }
}

/// A text of one line is its only piece.
pub proof fn lemma_split_one_line(s: Seq<char>)
    requires
        one_line(s),
    ensures
        text::split_spec(s, '\n') == seq![s],
    decreases s.len(),
{
    if s.len() > 0 {
        assert(s[s.len() - 1] != '\n');
        assert forall|i: int| 0 <= i < s.drop_last().len() implies #[trigger] s.drop_last()[i]
            != '\n' by {
            assert(s.drop_last()[i] == s[i]);
        }
        lemma_split_one_line(s.drop_last());
        assert(s.drop_last().push(s.last()) =~= s);
        assert(text::split_spec(s, '\n') =~= seq![s]);
    } else {
        assert(s =~= Seq::<char>::empty());
    }
}

/// The pieces of two texts with a line feed between them are the pieces of
/// the one and then those of the other.
pub proof fn lemma_split_around(a: Seq<char>, b: Seq<char>)
    ensures
        text::split_spec(a + seq!['\n'] + b, '\n') == text::split_spec(a, '\n') + text::split_spec(
            b,
            '\n',
        ),
    decreases b.len(),
{
    let whole = a + seq!['\n'] + b;
    let left = text::split_spec(a, '\n');
    if b.len() == 0 {
        assert(whole.drop_last() =~= a);
        assert(whole.last() == '\n');
        assert(text::split_spec(b, '\n') =~= seq![Seq::<char>::empty()]);
        assert(text::split_spec(whole, '\n') =~= left + text::split_spec(b, '\n'));
    } else {
        lemma_split_around(a, b.drop_last());
        lemma_split_pieces(b.drop_last());
        assert(whole.drop_last() =~= a + seq!['\n'] + b.drop_last());
        assert(whole.last() == b.last());
        let right = text::split_spec(b.drop_last(), '\n');
        assert(text::split_spec(whole, '\n') =~= left + text::split_spec(b, '\n'));
    }
}

/// A line before a text goes before the text's first piece.
pub proof fn lemma_split_behind(x: Seq<char>, s: Seq<char>)
    requires
        one_line(x),
    ensures
        text::split_spec(x + s, '\n') == text::split_spec(s, '\n').update(
            0,
            x + text::split_spec(s, '\n')[0],
        ),
    decreases s.len(),
{
    lemma_split_pieces(s);
    if s.len() == 0 {
        assert(x + s =~= x);
        lemma_split_one_line(x);
        assert(x + Seq::<char>::empty() =~= x);
        assert(text::split_spec(s, '\n').update(0, x + text::split_spec(s, '\n')[0]) =~= seq![x]);
    } else {
        lemma_split_behind(x, s.drop_last());
        lemma_split_pieces(s.drop_last());
        assert((x + s).drop_last() =~= x + s.drop_last());
        assert((x + s).last() == s.last());
        let init = text::split_spec(s.drop_last(), '\n');
        let moved = text::split_spec(x + s.drop_last(), '\n');
        if s.last() != '\n' {
            if init.len() == 1 {
                assert((x + init[0]).push(s.last()) =~= x + init[0].push(s.last()));
            }
        }
        assert(text::split_spec(x + s, '\n') =~= text::split_spec(s, '\n').update(
            0,
            x + text::split_spec(s, '\n')[0],
        ));
    }
}

/// A line behind a text goes behind the text's last piece.
pub proof fn lemma_split_before(s: Seq<char>, y: Seq<char>)
    requires
        one_line(y),
    ensures
        text::split_spec(s + y, '\n') == text::split_spec(s, '\n').update(
            text::split_spec(s, '\n').len() - 1,
            text::split_spec(s, '\n').last() + y,
        ),
    decreases y.len(),
{
    lemma_split_pieces(s);
    let pieces = text::split_spec(s, '\n');
    if y.len() == 0 {
        assert(s + y =~= s);
        assert(pieces.last() + y =~= pieces.last());
        assert(pieces.update(pieces.len() - 1, pieces.last() + y) =~= pieces);
    } else {
        assert(y[y.len() - 1] != '\n');
        assert forall|i: int| 0 <= i < y.drop_last().len() implies #[trigger] y.drop_last()[i]
            != '\n' by {
            assert(y.drop_last()[i] == y[i]);
        }
        lemma_split_before(s, y.drop_last());
        assert((s + y).drop_last() =~= s + y.drop_last());
        assert((s + y).last() == y.last());
        assert((pieces.last() + y.drop_last()).push(y.last()) =~= pieces.last() + y);
        assert(text::split_spec(s + y, '\n') =~= pieces.update(
            pieces.len() - 1,
            pieces.last() + y,
        ));
    }
}

/// Lines that are joined by line feeds come apart as they were.
pub proof fn lemma_split_join(lines: Seq<Seq<char>>)
    requires
        lines.len() >= 1,
        all_one_line(lines),
    ensures
        text::split_spec(text::join_spec(lines, "\n"@), '\n') == lines,
    decreases lines.len(),
{
    reveal_strlit("\n");
    assert("\n"@ =~= seq!['\n']);
    if lines.len() == 1 {
        lemma_split_one_line(lines[0]);
        assert(lines =~= seq![lines[0]]);
    } else {
        let init = lines.drop_last();
        assert(all_one_line(init)) by {
            assert forall|i: int| 0 <= i < init.len() implies one_line(#[trigger] init[i]) by {
                assert(init[i] == lines[i]);
            }
        }
        lemma_split_join(init);
        lemma_split_around(text::join_spec(init, "\n"@), lines.last());
        lemma_split_one_line(lines.last());
        assert(init + seq![lines.last()] =~= lines);
    }
}

/// Texts that are joined by line feeds come apart into the lines of all of
/// them.
pub proof fn lemma_split_join_parts(parts: Seq<Seq<char>>)
    requires
        parts.len() >= 1,
    ensures
        text::split_spec(text::join_spec(parts, "\n"@), '\n') == flat_lines(parts),
    decreases parts.len(),
{
    reveal_strlit("\n");
    assert("\n"@ =~= seq!['\n']);
    if parts.len() == 1 {
        assert(parts.drop_last().len() == 0);
        assert(flat_lines(parts.drop_last()) =~= Seq::<Seq<char>>::empty());
        assert(flat_lines(parts) =~= text::split_spec(parts[0], '\n'));
    } else {
        lemma_split_join_parts(parts.drop_last());
        lemma_split_around(text::join_spec(parts.drop_last(), "\n"@), parts.last());
    }
}

/// The text starts with two blanks.
pub open spec fn blank_unit(s: Seq<char>) -> bool {
    s.len() >= 2 && s[0] == ' ' && s[1] == ' '
}

/// A colour's escape sequence stands at that place of the text.
pub open spec fn is_code(s: Seq<char>, at: int) -> bool {
    0 <= at && at + 5 <= s.len() && s[at] == '\u{1b}' && s[at + 1] == '[' && s[at + 4] == 'm'
}

/// The escape sequence that ends a colour stands at that place of the text.
pub open spec fn is_reset(s: Seq<char>, at: int) -> bool {
    0 <= at && at + 4 <= s.len() && s[at] == '\u{1b}' && s[at + 1] == '[' && s[at + 2] == '0'
        && s[at + 3] == 'm'
}

/// The text starts with a bar in a colour.
pub open spec fn bar_unit(s: Seq<char>) -> bool {
    s.len() >= 11 && is_code(s, 0) && s[5] == '|' && s[6] == ' ' && is_reset(s, 7)
}

/// The number of levels that a line is indented by: the blanks and bars at
/// its start.
pub open spec fn units(s: Seq<char>) -> nat
    decreases s.len(),
{
    if blank_unit(s) {
        1 + units(s.skip(2))
    } else if bar_unit(s) {
        1 + units(s.skip(11))
    } else {
        0
    }
}

/// What stands behind the indentation of a line.
pub open spec fn behind_units(s: Seq<char>) -> Seq<char>
    decreases s.len(),
{
    if blank_unit(s) {
        behind_units(s.skip(2))
    } else if bar_unit(s) {
        behind_units(s.skip(11))
    } else {
        s
    }
}

/// The character opens a connector.
pub open spec fn is_pointer(c: char) -> bool {
    c == '\u{251c}' || c == '\u{250c}'
}

/// What stands behind the indentation is the first line of a block: a
/// colour and a connector.
pub open spec fn is_header(rest: Seq<char>) -> bool {
    rest.len() >= 7 && is_code(rest, 0) && is_pointer(rest[5]) && rest[6] == '\u{2500}'
}

/// The name on the first line of a block: what stands behind the
/// connector, without the end of the colour.
pub open spec fn header_name(rest: Seq<char>) -> Seq<char> {
    let name = rest.skip(7);
    if name.len() >= 4 && is_reset(name, name.len() - 4) {
        name.take(name.len() - 4)
    } else {
        name
    }
}

/// No character of the text opens a connector.
pub open spec fn no_pointer(s: Seq<char>) -> bool {
    forall|i: int| 0 <= i < s.len() ==> !is_pointer(#[trigger] s[i])
}

/// No character of the text is an escape.
pub open spec fn no_escape(s: Seq<char>) -> bool {
    forall|i: int| 0 <= i < s.len() ==> #[trigger] s[i] != '\u{1b}'
}

/// The line is the first line of a block.
pub open spec fn header_line(line: Seq<char>) -> bool {
    is_header(behind_units(line))
}

/// The line is one of the root: not indented and no first line of a block.
pub open spec fn root_line(line: Seq<char>) -> bool {
    units(line) == 0 && !header_line(line)
}

/// What the first lines of blocks among the lines say, in the order of the
/// lines: how deep the node hangs and its name.
pub open spec fn header_rows(lines: Seq<Seq<char>>) -> Seq<(int, Seq<char>)>
    decreases lines.len(),
{
    if lines.len() == 0 {
        Seq::empty()
    } else if header_line(lines.last()) {
        header_rows(lines.drop_last()).push(
            ((units(lines.last()) + 1) as int, header_name(behind_units(lines.last()))),
        )
    } else {
        header_rows(lines.drop_last())
    }
}

/// None of the lines is one of the root.
pub open spec fn no_root_line(lines: Seq<Seq<char>>) -> bool {
    forall|i: int| 0 <= i < lines.len() ==> !root_line(#[trigger] lines[i])
}

/// The text is the indentation of `depth` levels: so many blanks or bars
/// in a colour, one after the other.
pub open spec fn is_padding(p: Seq<char>, depth: nat) -> bool
    decreases depth,
{
    if depth == 0 {
        p.len() == 0
    } else {
        ||| p.len() >= 2 && p.skip(p.len() - 2) == tree::SPACE@ && is_padding(
            p.take(p.len() - 2),
            (depth - 1) as nat,
        )
        ||| p.len() >= 11 && bar_unit(p.skip(p.len() - 11)) && no_pointer(p.skip(p.len() - 11))
            && one_line(p.skip(p.len() - 11)) && is_padding(
            p.take(p.len() - 11),
            (depth - 1) as nat,
        )
    }
}

/// What the texts that the picture is drawn with are made of.
pub proof fn lemma_signs()
    ensures
        tree::SPACE@ == seq![' ', ' '],
        tree::PIPE@ == seq!['|', ' '],
        color_cycle::RESET@ == seq!['\u{1b}', '[', '0', 'm'],
        tree::HAS_NEIGHBOR@ == seq!['\u{251c}', '\u{2500}'],
        tree::NO_NEIGHBOR_B@ == seq!['\u{250c}', '\u{2500}'],
{
    reveal_strlit("  ");
    reveal_strlit("| ");
    reveal_strlit("\x1b[0m");
    reveal_strlit("\u{251c}\u{2500}");
    reveal_strlit("\u{250c}\u{2500}");
    assert(tree::SPACE@ =~= seq![' ', ' ']);
    assert(tree::PIPE@ =~= seq!['|', ' ']);
    assert(color_cycle::RESET@ =~= seq!['\u{1b}', '[', '0', 'm']);
    assert(tree::HAS_NEIGHBOR@ =~= seq!['\u{251c}', '\u{2500}']);
    assert(tree::NO_NEIGHBOR_B@ =~= seq!['\u{250c}', '\u{2500}']);
}

/// What the escape sequence of a colour is made of.
pub proof fn lemma_code(color: Color)
    ensures
        color.code_spec().len() == 5,
        is_code(color.code_spec(), 0),
        no_pointer(color.code_spec()),
        one_line(color.code_spec()),
{
    reveal_strlit("\x1b[36m");
    reveal_strlit("\x1b[35m");
    reveal_strlit("\x1b[92m");
    reveal_strlit("\x1b[91m");
    reveal_strlit("\x1b[34m");
    reveal_strlit("\x1b[33m");
    reveal_strlit("\x1b[93m");
    let c = color.code_spec();
    assert(c.len() == 5);
    assert(c[0] == '\u{1b}' && c[1] == '[' && c[4] == 'm');
    assert(c[2] == '3' || c[2] == '9');
    assert(c[3] == '1' || c[3] == '2' || c[3] == '3' || c[3] == '4' || c[3] == '5' || c[3] == '6');
    assert forall|i: int| 0 <= i < c.len() implies !is_pointer(#[trigger] c[i]) && c[i] != '\n' by {
        if i == 0 {
        } else if i == 1 {
        } else if i == 2 {
        } else if i == 3 {
        } else {
        }
    }
}

/// A bar in a colour is a level of indentation.
pub proof fn lemma_painted_bar(color: Color)
    ensures
        color.paint_spec(tree::PIPE@).len() == 11,
        bar_unit(color.paint_spec(tree::PIPE@)),
        no_pointer(color.paint_spec(tree::PIPE@)),
        one_line(color.paint_spec(tree::PIPE@)),
{
    lemma_signs();
    lemma_code(color);
    let code = color.code_spec();
    let bar = color.paint_spec(tree::PIPE@);
    assert(bar =~= code + seq!['|', ' '] + seq!['\u{1b}', '[', '0', 'm']);
    assert(bar.len() == 11);
    assert forall|i: int| 0 <= i < bar.len() implies !is_pointer(#[trigger] bar[i]) && bar[i]
        != '\n' by {
        if i < 5 {
            assert(bar[i] == code[i]);
        }
    }
    assert(bar[0] == code[0] && bar[1] == code[1] && bar[4] == code[4]);
}

/// The indentation one level further in is an indentation.
pub proof fn lemma_deeper(padding: Seq<char>, depth: nat, has_right_sib: bool, color: Color)
    requires
        is_padding(padding, depth),
    ensures
        is_padding(tree::deeper(padding, has_right_sib, color), depth + 1),
{
    lemma_signs();
    lemma_painted_bar(color);
    let next = tree::deeper(padding, has_right_sib, color);
    if has_right_sib {
        let bar = color.paint_spec(tree::PIPE@);
        assert(next.skip(next.len() - 11) =~= bar);
        assert(next.take(next.len() - 11) =~= padding);
    } else {
        assert(next.skip(next.len() - 2) =~= tree::SPACE@);
        assert(next.take(next.len() - 2) =~= padding);
    }
}

/// An indentation holds neither a connector nor a line feed.
pub proof fn lemma_padding_chars(p: Seq<char>, depth: nat)
    requires
        is_padding(p, depth),
    ensures
        no_pointer(p),
        one_line(p),
    decreases depth,
{
    lemma_signs();
    if depth > 0 {
        let n = p.len() as int;
        if p.len() >= 2 && p.skip(n - 2) == tree::SPACE@ && is_padding(
            p.take(n - 2),
            (depth - 1) as nat,
        ) {
            lemma_padding_chars(p.take(n - 2), (depth - 1) as nat);
            assert forall|i: int| 0 <= i < n implies !is_pointer(#[trigger] p[i]) && p[i]
                != '\n' by {
                if i < n - 2 {
                    assert(p.take(n - 2)[i] == p[i]);
                } else {
                    assert(p.skip(n - 2)[i - (n - 2)] == p[i]);
                }
            }
        } else {
            lemma_padding_chars(p.take(n - 11), (depth - 1) as nat);
            assert forall|i: int| 0 <= i < n implies !is_pointer(#[trigger] p[i]) && p[i]
                != '\n' by {
                if i < n - 11 {
                    assert(p.take(n - 11)[i] == p[i]);
                } else {
                    assert(p.skip(n - 11)[i - (n - 11)] == p[i]);
                }
            }
        }
    }
}

/// Behind an indentation of `depth` levels a line is indented by `depth`
/// levels more than what follows the indentation.
pub proof fn lemma_padding_units(p: Seq<char>, depth: nat, tail: Seq<char>)
    requires
        is_padding(p, depth),
    ensures
        units(p + tail) == depth + units(tail),
        behind_units(p + tail) == behind_units(tail),
    decreases depth,
{
    lemma_signs();
    if depth == 0 {
        assert(p + tail =~= tail);
    } else {
        let n = p.len() as int;
        if p.len() >= 2 && p.skip(n - 2) == tree::SPACE@ && is_padding(
            p.take(n - 2),
            (depth - 1) as nat,
        ) {
            let unit = p.skip(n - 2);
            let rest = unit + tail;
            assert(p + tail =~= p.take(n - 2) + rest);
            lemma_padding_units(p.take(n - 2), (depth - 1) as nat, rest);
            assert(rest[0] == unit[0] && rest[1] == unit[1]);
            assert(blank_unit(rest));
            assert(rest.skip(2) =~= tail);
        } else {
            let unit = p.skip(n - 11);
            let rest = unit + tail;
            assert(p + tail =~= p.take(n - 11) + rest);
            lemma_padding_units(p.take(n - 11), (depth - 1) as nat, rest);
            assert forall|i: int| 0 <= i < 11 implies rest[i] == unit[i] by {}
            assert(!blank_unit(rest));
            assert(bar_unit(rest));
            assert(rest.skip(11) =~= tail);
        }
    }
}

/// A line without a connector is no first line of a block.
pub proof fn lemma_no_pointer_no_header(s: Seq<char>)
    requires
        no_pointer(s),
    ensures
        !header_line(s),
    decreases s.len(),
{
    if blank_unit(s) {
        assert forall|i: int| 0 <= i < s.skip(2).len() implies !is_pointer(
            #[trigger] s.skip(2)[i],
        ) by {
            assert(s.skip(2)[i] == s[i + 2]);
        }
        lemma_no_pointer_no_header(s.skip(2));
    } else if bar_unit(s) {
        assert forall|i: int| 0 <= i < s.skip(11).len() implies !is_pointer(
            #[trigger] s.skip(11)[i],
        ) by {
            assert(s.skip(11)[i] == s[i + 11]);
        }
        lemma_no_pointer_no_header(s.skip(11));
    } else {
        if s.len() >= 7 {
            assert(!is_pointer(s[5]));
        }
    }
}

/// The first lines of blocks among lines that follow one another are those
/// among the first lines and then those among the rest.
pub proof fn lemma_header_rows_concat(a: Seq<Seq<char>>, b: Seq<Seq<char>>)
    ensures
        header_rows(a + b) == header_rows(a) + header_rows(b),
    decreases b.len(),
{
    if b.len() == 0 {
        assert(a + b =~= a);
        assert(header_rows(a) + header_rows(b) =~= header_rows(a));
    } else {
        lemma_header_rows_concat(a, b.drop_last());
        assert((a + b).drop_last() =~= a + b.drop_last());
        assert((a + b).last() == b.last());
        assert(header_rows(a + b) =~= header_rows(a) + header_rows(b));
    }
}

/// Lines of which none is the first line of a block say nothing.
pub proof fn lemma_header_rows_none(lines: Seq<Seq<char>>)
    requires
        forall|i: int| 0 <= i < lines.len() ==> !header_line(#[trigger] lines[i]),
    ensures
        header_rows(lines).len() == 0,
    decreases lines.len(),
{
    if lines.len() > 0 {
        assert(!header_line(lines[lines.len() - 1]));
        assert forall|i: int| 0 <= i < lines.drop_last().len() implies !header_line(
            #[trigger] lines.drop_last()[i],
        ) by {
            assert(lines.drop_last()[i] == lines[i]);
        }
        lemma_header_rows_none(lines.drop_last());
    }
}

/// The first line of a label.
pub open spec fn first_line(label: Seq<char>) -> Seq<char> {
    text::split_spec(label, '\n')[0]
}

/// The pieces of a text without a connector hold none.
pub proof fn lemma_pieces_no_pointer(s: Seq<char>)
    requires
        no_pointer(s),
    ensures
        forall|i: int|
            0 <= i < text::split_spec(s, '\n').len() ==> no_pointer(
                #[trigger] text::split_spec(s, '\n')[i],
            ),
    decreases s.len(),
{
    if s.len() > 0 {
        assert forall|i: int| 0 <= i < s.drop_last().len() implies !is_pointer(
            #[trigger] s.drop_last()[i],
        ) by {
            assert(s.drop_last()[i] == s[i]);
        }
        lemma_pieces_no_pointer(s.drop_last());
        lemma_split_pieces(s.drop_last());
        let init = text::split_spec(s.drop_last(), '\n');
        let all = text::split_spec(s, '\n');
        assert(!is_pointer(s[s.len() - 1]));
        assert forall|i: int| 0 <= i < all.len() implies no_pointer(#[trigger] all[i]) by {
            if i < init.len() - 1 {
                assert(all[i] == init[i]);
            } else if s.last() == '\n' {
                if i < init.len() {
                    assert(all[i] == init[i]);
                }
            } else {
                assert(no_pointer(init[i]));
            }
        }
    }
}

/// Line `i` of a block: the indentation, then the colour and the connector
/// on the first line and a bar in the colour on every other, then the line
/// of the label, and on the last line the end of the colour.
pub open spec fn block_line(
    pieces: Seq<Seq<char>>,
    padding: Seq<char>,
    has_right_sib: bool,
    color: Color,
    i: int,
) -> Seq<char> {
    padding + if i == 0 {
        color.code_spec() + tree::pointer(has_right_sib)
    } else {
        color.paint_spec(tree::PIPE@)
    } + pieces[i] + if i == pieces.len() - 1 {
        color_cycle::RESET@
    } else {
        Seq::empty()
    }
}

/// The lines of a block are those of its label, each behind the
/// indentation and its sign.
pub proof fn lemma_block_lines(
    label: Seq<char>,
    padding: Seq<char>,
    has_right_sib: bool,
    color: Color,
)
    requires
        one_line(padding),
    ensures
        text::split_spec(tree::block_spec(label, padding, has_right_sib, color), '\n') == Seq::new(
            text::split_spec(label, '\n').len(),
            |i: int| block_line(text::split_spec(label, '\n'), padding, has_right_sib, color, i),
        ),
{
    lemma_signs();
    lemma_code(color);
    lemma_painted_bar(color);
    lemma_split_pieces(label);
    let code = color.code_spec();
    let reset = color_cycle::RESET@;
    let bar = color.paint_spec(tree::PIPE@);
    let tip = tree::pointer(has_right_sib);
    let ls = text::split_spec(label, '\n');
    let nl = tree::node_lines(ls, has_right_sib, color);
    let n = ls.len() as int;
    assert(all_one_line(nl)) by {
        assert forall|i: int| 0 <= i < n implies one_line(#[trigger] nl[i]) by {
            assert(one_line(ls[i]));
            if i == 0 {
                assert(nl[i] == tip + ls[i]);
            } else {
                assert(nl[i] == bar + ls[i]);
            }
        }
    }
    let joined = text::join_spec(nl, "\n"@);
    lemma_split_join(nl);
    let painted = color.paint_spec(joined);
    assert(painted =~= (code + joined) + reset);
    lemma_split_behind(code, joined);
    let first = nl.update(0, code + nl[0]);
    assert(one_line(reset));
    lemma_split_before(code + joined, reset);
    let pl = first.update(n - 1, first[n - 1] + reset);
    assert(text::split_spec(painted, '\n') == pl);
    lemma_split_pieces(painted);
    let lines = indent::prefixed(pl, padding);
    assert(all_one_line(lines)) by {
        assert forall|i: int| 0 <= i < n implies one_line(#[trigger] lines[i]) by {
            assert(one_line(pl[i]));
            assert(lines[i] == padding + pl[i]);
        }
    }
    lemma_split_join(lines);
    let wanted = Seq::new(n as nat, |i: int| block_line(ls, padding, has_right_sib, color, i));
    assert forall|i: int| 0 <= i < n implies lines[i] == wanted[i] by {
        assert(lines[i] == padding + pl[i]);
        if i == 0 {
            assert(nl[0] == tip + ls[0]);
        } else {
            assert(nl[i] == bar + ls[i]);
        }
        assert(lines[i] =~= block_line(ls, padding, has_right_sib, color, i));
    }
    assert(lines =~= wanted);
}

/// The first line of a block tells how deep the node hangs and the first
/// line of its label.
pub proof fn lemma_block_first_line(
    pieces: Seq<Seq<char>>,
    padding: Seq<char>,
    depth: nat,
    has_right_sib: bool,
    color: Color,
)
    requires
        pieces.len() >= 1,
        is_padding(padding, depth),
        no_escape(pieces[0]),
    ensures
        header_line(block_line(pieces, padding, has_right_sib, color, 0)),
        units(block_line(pieces, padding, has_right_sib, color, 0)) == depth,
        header_name(behind_units(block_line(pieces, padding, has_right_sib, color, 0)))
            == pieces[0],
{
    lemma_signs();
    lemma_code(color);
    let code = color.code_spec();
    let reset = color_cycle::RESET@;
    let tip = tree::pointer(has_right_sib);
    let line = block_line(pieces, padding, has_right_sib, color, 0);
    let head = code + tip + pieces[0] + if pieces.len() == 1 {
        reset
    } else {
        Seq::empty()
    };
    assert(line =~= padding + head);
    assert(head[0] == code[0] && head[1] == code[1] && head[4] == code[4]);
    assert(head[5] == tip[0] && head[6] == tip[1]);
    assert(!blank_unit(head));
    assert(!bar_unit(head));
    assert(units(head) == 0 && behind_units(head) == head);
    lemma_padding_units(padding, depth, head);
    assert(is_header(head));
    let name = head.skip(7);
    if pieces.len() == 1 {
        assert(name =~= pieces[0] + reset);
        let m = name.len() as int;
        assert(name[m - 4] == reset[0] && name[m - 3] == reset[1] && name[m - 2] == reset[2]
            && name[m - 1] == reset[3]);
        assert(is_reset(name, m - 4));
        assert(name.take(m - 4) =~= pieces[0]);
    } else {
        assert(name =~= pieces[0]);
        if name.len() >= 4 {
            assert(pieces[0][name.len() - 4] != '\u{1b}');
        }
    }
}

/// Every further line of a block is indented and is no first line of a
/// block.
pub proof fn lemma_block_further_line(
    pieces: Seq<Seq<char>>,
    padding: Seq<char>,
    depth: nat,
    has_right_sib: bool,
    color: Color,
    i: int,
)
    requires
        1 <= i < pieces.len(),
        is_padding(padding, depth),
        no_pointer(pieces[i]),
    ensures
        !header_line(block_line(pieces, padding, has_right_sib, color, i)),
        units(block_line(pieces, padding, has_right_sib, color, i)) >= 1,
{
    lemma_signs();
    lemma_painted_bar(color);
    lemma_padding_chars(padding, depth);
    let reset = color_cycle::RESET@;
    let bar = color.paint_spec(tree::PIPE@);
    let line = block_line(pieces, padding, has_right_sib, color, i);
    let end = if i == pieces.len() - 1 {
        reset
    } else {
        Seq::empty()
    };
    let tail = bar + pieces[i] + end;
    assert(line =~= padding + tail);
    assert forall|k: int| 0 <= k < 11 implies tail[k] == bar[k] by {}
    assert(!blank_unit(tail));
    assert(bar_unit(tail));
    lemma_padding_units(padding, depth, tail);
    assert forall|k: int| 0 <= k < line.len() implies !is_pointer(#[trigger] line[k]) by {
        let a = padding.len() as int;
        if k < a {
            assert(line[k] == padding[k]);
        } else if k < a + 11 {
            assert(line[k] == bar[k - a]);
        } else if k < a + 11 + pieces[i].len() {
            assert(line[k] == pieces[i][k - a - 11]);
        } else {
            assert(line[k] == reset[k - a - 11 - pieces[i].len()]);
        }
    }
    lemma_no_pointer_no_header(line);
}

/// The lines of a block.  The first bears the connector behind the
/// indentation and the colour, and is the only one that does; every other
/// line stands behind a bar, one level further in.  So the block says of
/// its node how deep it hangs and the first line of its label, and none of
/// its lines is one of the root.
pub proof fn lemma_block(
    label: Seq<char>,
    padding: Seq<char>,
    depth: nat,
    has_right_sib: bool,
    color: Color,
)
    requires
        is_padding(padding, depth),
        no_pointer(label),
        no_escape(first_line(label)),
    ensures
        text::split_spec(tree::block_spec(label, padding, has_right_sib, color), '\n').len() >= 1,
        header_rows(
            text::split_spec(tree::block_spec(label, padding, has_right_sib, color), '\n'),
        ) == seq![((depth + 1) as int, first_line(label))],
        no_root_line(
            text::split_spec(tree::block_spec(label, padding, has_right_sib, color), '\n'),
        ),
{
    lemma_padding_chars(padding, depth);
    lemma_split_pieces(label);
    lemma_pieces_no_pointer(label);
    lemma_block_lines(label, padding, has_right_sib, color);
    let ls = text::split_spec(label, '\n');
    let n = ls.len() as int;
    let lines = text::split_spec(tree::block_spec(label, padding, has_right_sib, color), '\n');
    assert(lines.len() == n);
    assert(lines[0] == block_line(ls, padding, has_right_sib, color, 0));
    lemma_block_first_line(ls, padding, depth, has_right_sib, color);
    assert forall|i: int| 1 <= i < n implies !header_line(#[trigger] lines[i]) && units(lines[i])
        >= 1 by {
        assert(lines[i] == block_line(ls, padding, has_right_sib, color, i));
        lemma_block_further_line(ls, padding, depth, has_right_sib, color, i);
    }
    let rest = lines.skip(1);
    assert(lines =~= seq![lines[0]] + rest);
    assert forall|i: int| 0 <= i < rest.len() implies !header_line(#[trigger] rest[i]) by {
        assert(rest[i] == lines[i + 1]);
    }
    lemma_header_rows_none(rest);
    let one = seq![lines[0]];
    lemma_header_rows_concat(one, rest);
    assert(one.drop_last() =~= Seq::<Seq<char>>::empty());
    assert(one.last() == lines[0]);
    assert(header_rows(one.drop_last()) =~= Seq::<(int, Seq<char>)>::empty());
    assert(header_rows(one) == header_rows(one.drop_last()).push(((depth + 1) as int, ls[0])));
    assert(header_rows(lines) =~= seq![((depth + 1) as int, ls[0])]);
    assert forall|i: int| 0 <= i < lines.len() implies !root_line(#[trigger] lines[i]) by {
        if i >= 1 {
            assert(units(lines[i]) >= 1);
        }
    }
}

/// The label can be read back from a picture: it holds no connector, and
/// its first line no escape.
pub open spec fn plain_label(label: Seq<char>) -> bool {
    no_pointer(label) && no_escape(first_line(label))
}

/// Every label of the tree can be read back.
pub open spec fn plain<T: WithChildren>(node: Node<T>) -> bool
    decreases node,
{
    &&& plain_label(node.label@)
    &&& forall|i: int| 0 <= i < node.children@.len() ==> plain(#[trigger] node.children@[i])
}

/// The rows of a tree: for the node and then for everything below it, child
/// by child, how deep it hangs and the first line of its label.
pub open spec fn rows<T: WithChildren>(node: Node<T>, depth: int) -> Seq<(int, Seq<char>)>
    decreases node, 0nat,
{
    seq![(depth, first_line(node.label@))] + rows_below(
        node.children@,
        depth + 1,
        node.children@.len() as int,
    )
}

/// The rows of the first `n` of the trees.
pub open spec fn rows_below<T: WithChildren>(kids: Seq<Node<T>>, depth: int, n: int) -> Seq<
    (int, Seq<char>),
>
    decreases kids, n,
{
    if n <= 0 || n > kids.len() {
        Seq::empty()
    } else {
        rows_below(kids, depth, n - 1) + rows(kids[n - 1], depth)
    }
}

/// The block says that row of its node, and none of its lines is one of the
/// root.
pub open spec fn tells_one(block: Seq<char>, row: (int, Seq<char>)) -> bool {
    &&& header_rows(text::split_spec(block, '\n')) == seq![row]
    &&& no_root_line(text::split_spec(block, '\n'))
}

/// The blocks say the rows, one each and in their order.
pub open spec fn tells(blocks: Seq<Seq<char>>, said: Seq<(int, Seq<char>)>) -> bool {
    &&& blocks.len() == said.len()
    &&& forall|i: int| 0 <= i < blocks.len() ==> tells_one(#[trigger] blocks[i], said[i])
}

/// Blocks that follow one another say what the first say and then what the
/// others say.
pub proof fn lemma_tells_more(
    a: Seq<Seq<char>>,
    said_a: Seq<(int, Seq<char>)>,
    b: Seq<Seq<char>>,
    said_b: Seq<(int, Seq<char>)>,
)
    requires
        tells(a, said_a),
        tells(b, said_b),
    ensures
        tells(a + b, said_a + said_b),
{
    assert forall|i: int| 0 <= i < (a + b).len() implies tells_one(
        #[trigger] (a + b)[i],
        (said_a + said_b)[i],
    ) by {
        if i < a.len() {
            assert(tells_one(a[i], said_a[i]));
        } else {
            assert(tells_one(b[i - a.len()], said_b[i - a.len()]));
        }
    }
}

/// The blocks of a tree say its rows.
pub proof fn lemma_traverse_tells<T: WithChildren>(
    node: Node<T>,
    padding: Seq<char>,
    depth: nat,
    has_right_sib: bool,
    shade: int,
)
    requires
        plain(node),
        is_padding(padding, depth),
    ensures
        tells(traverse_spec_blocks(node, padding, has_right_sib, shade), rows(node, (depth + 1) as int)),
    decreases node, 0nat,
{
    let color = color_cycle::palette()[shade];
    lemma_block(node.label@, padding, depth, has_right_sib, color);
    lemma_deeper(padding, depth, has_right_sib, color);
    let block = tree::block_spec(node.label@, padding, has_right_sib, color);
    let first = seq![block];
    let head = seq![((depth + 1) as int, first_line(node.label@))];
    assert(tells(first, head)) by {
        assert(tells_one(first[0], head[0]));
    }
    assert(head + rows_below(node.children@, (depth + 2) as int, 0) =~= head);
    lemma_children_tell(
        node.children@,
        tree::deeper(padding, has_right_sib, color),
        depth + 1,
        0,
        shade,
        first,
        head,
    );
}

/// The blocks of a tree.
pub open spec fn traverse_spec_blocks<T: WithChildren>(
    node: Node<T>,
    padding: Seq<char>,
    has_right_sib: bool,
    shade: int,
) -> Seq<Seq<char>> {
    tree::traverse_spec(node, padding, has_right_sib, shade).0
}

/// The blocks gathered so far with those of the children from the `k`-th on
/// say what the first say and then the rows of all the children.
pub proof fn lemma_children_tell<T: WithChildren>(
    kids: Seq<Node<T>>,
    padding: Seq<char>,
    depth: nat,
    k: int,
    shade: int,
    blocks: Seq<Seq<char>>,
    head: Seq<(int, Seq<char>)>,
)
    requires
        forall|i: int| 0 <= i < kids.len() ==> plain(#[trigger] kids[i]),
        is_padding(padding, depth),
        0 <= k <= kids.len(),
        tells(blocks, head + rows_below(kids, (depth + 1) as int, k)),
    ensures
        tells(
            tree::traverse_children(kids, padding, k, shade, blocks).0,
            head + rows_below(kids, (depth + 1) as int, kids.len() as int),
        ),
    decreases kids, kids.len() - k,
{
    if k < kids.len() {
        let turned = if k > 0 {
            tree::next_shade(shade)
        } else {
            shade
        };
        let sib = k < kids.len() - 1;
        let below = tree::traverse_spec(kids[k], padding, sib, turned).0;
        let after = tree::traverse_spec(kids[k], padding, sib, turned).1;
        assert(plain(kids[k]));
        lemma_traverse_tells(kids[k], padding, depth, sib, turned);
        lemma_tells_more(
            blocks,
            head + rows_below(kids, (depth + 1) as int, k),
            below,
            rows(kids[k], (depth + 1) as int),
        );
        assert((head + rows_below(kids, (depth + 1) as int, k)) + rows(kids[k], (depth + 1) as int) =~= head
            + rows_below(kids, (depth + 1) as int, k + 1));
        lemma_children_tell(kids, padding, depth, k + 1, after, blocks + below, head);
    }
}

/// Blocks set one above the other in reverse say their rows in reverse, and
/// none of their lines is one of the root.
pub proof fn lemma_tells_reversed(blocks: Seq<Seq<char>>, said: Seq<(int, Seq<char>)>)
    requires
        tells(blocks, said),
    ensures
        header_rows(flat_lines(blocks.reverse())) == said.reverse(),
        no_root_line(flat_lines(blocks.reverse())),
    decreases blocks.len(),
{
    let turned = blocks.reverse();
    if blocks.len() == 0 {
        assert(turned.len() == 0);
        assert(said.reverse() =~= Seq::<(int, Seq<char>)>::empty());
    } else {
        let rest = blocks.skip(1);
        assert(tells(rest, said.skip(1))) by {
            assert forall|i: int| 0 <= i < rest.len() implies tells_one(
                #[trigger] rest[i],
                said.skip(1)[i],
            ) by {
                assert(tells_one(blocks[i + 1], said[i + 1]));
            }
        }
        lemma_tells_reversed(rest, said.skip(1));
        assert(turned.last() == blocks[0]);
        assert(turned.drop_last() =~= rest.reverse());
        assert(tells_one(blocks[0], said[0]));
        let upper = flat_lines(rest.reverse());
        let lower = text::split_spec(blocks[0], '\n');
        assert(flat_lines(turned) == upper + lower);
        lemma_header_rows_concat(upper, lower);
        assert(said.reverse() =~= said.skip(1).reverse() + seq![said[0]]);
        assert forall|i: int| 0 <= i < (upper + lower).len() implies !root_line(
            #[trigger] (upper + lower)[i],
        ) by {
            if i < upper.len() {
                assert(!root_line(upper[i]));
            } else {
                assert(!root_line(lower[i - upper.len()]));
            }
        }
    }
}

/// The picture ends with the lines of the label.  The lines above them
/// say the rows when they are read from the bottom up, and none of them is
/// a line of the root.
pub open spec fn stands(picture: Seq<char>, label: Seq<char>, said: Seq<(int, Seq<char>)>) -> bool {
    let lines = text::split_spec(picture, '\n');
    let above = lines.len() - text::split_spec(label, '\n').len();
    &&& above >= 0
    &&& lines.skip(above) == text::split_spec(label, '\n')
    &&& no_root_line(lines.take(above))
    &&& header_rows(lines.take(above)).reverse() == said
}

/// With the subtrees of the children from the `k`-th on set above it, the
/// picture says the rows of all the children.
pub proof fn lemma_stack_up_stands<T: WithChildren>(
    kids: Seq<Node<T>>,
    k: int,
    shade: int,
    picture: Seq<char>,
    label: Seq<char>,
)
    requires
        forall|i: int| 0 <= i < kids.len() ==> plain(#[trigger] kids[i]),
        0 <= k <= kids.len(),
        stands(picture, label, rows_below(kids, 1, k)),
    ensures
        stands(
            tree::stack_up(kids, k, shade, picture),
            label,
            rows_below(kids, 1, kids.len() as int),
        ),
    decreases kids.len() - k,
{
    if k < kids.len() {
        let turned = if k > 0 {
            tree::next_shade(shade)
        } else {
            shade
        };
        let sib = k < kids.len() - 1;
        let blocks = tree::traverse_spec(kids[k], Seq::empty(), sib, turned).0;
        let after = tree::traverse_spec(kids[k], Seq::empty(), sib, turned).1;
        let own = rows(kids[k], 1);
        assert(plain(kids[k]));
        assert(is_padding(Seq::<char>::empty(), 0));
        lemma_traverse_tells(kids[k], Seq::empty(), 0, sib, turned);
        lemma_tells_reversed(blocks, own);
        lemma_split_join_parts(blocks.reverse());
        reveal_strlit("\n");
        assert("\n"@ =~= seq!['\n']);
        let top = text::join_spec(blocks.reverse(), "\n"@);
        let next = top + "\n"@ + picture;
        lemma_split_around(top, picture);
        let upper = flat_lines(blocks.reverse());
        let lines = text::split_spec(picture, '\n');
        let above = lines.len() - text::split_spec(label, '\n').len();
        let all = upper + lines;
        assert(text::split_spec(next, '\n') == all);
        assert(all.skip(upper.len() + above) =~= lines.skip(above));
        assert(all.take(upper.len() + above) =~= upper + lines.take(above));
        lemma_header_rows_concat(upper, lines.take(above));
        let low = header_rows(lines.take(above));
        assert(header_rows(upper) == own.reverse());
        assert(own.reverse().reverse() =~= own);
        assert((own.reverse() + low).reverse() =~= low.reverse() + own);
        assert(low.reverse() + own == rows_below(kids, 1, k + 1));
        assert forall|i: int| 0 <= i < upper.len() + above implies !root_line(
            #[trigger] (upper + lines.take(above))[i],
        ) by {
            if i < upper.len() {
                assert(!root_line(upper[i]));
            } else {
                assert(!root_line(lines.take(above)[i - upper.len()]));
            }
        }
        assert(stands(next, label, rows_below(kids, 1, k + 1)));
        lemma_stack_up_stands(kids, k + 1, after, next, label);
    }
}

/// The place of the first line that is one of the root, the number of the
/// lines where there is none.
pub open spec fn root_at(lines: Seq<Seq<char>>) -> int
    decreases lines.len(),
{
    if lines.len() == 0 {
        0
    } else if root_line(lines[0]) {
        0
    } else {
        1 + root_at(lines.skip(1))
    }
}

/// The first line of the root is where no line before it is one.
pub proof fn lemma_root_at(lines: Seq<Seq<char>>, at: int)
    requires
        0 <= at <= lines.len(),
        forall|i: int| 0 <= i < at ==> !root_line(#[trigger] lines[i]),
        at < lines.len() ==> root_line(lines[at]),
    ensures
        root_at(lines) == at,
    decreases lines.len(),
{
    if lines.len() > 0 && at > 0 {
        assert(!root_line(lines[0]));
        let rest = lines.skip(1);
        assert forall|i: int| 0 <= i < at - 1 implies !root_line(#[trigger] rest[i]) by {
            assert(rest[i] == lines[i + 1]);
        }
        if at - 1 < rest.len() {
            assert(rest[at - 1] == lines[at]);
        }
        lemma_root_at(rest, at - 1);
    }
}

/// What a picture says: the root, by its first line, and then the nodes
/// above it from the bottom up, each by how deep it hangs and the first
/// line of its label.
pub open spec fn read_spec(picture: Seq<char>) -> Seq<(int, Seq<char>)> {
    let lines = text::split_spec(picture, '\n');
    let at = root_at(lines);
    if at < lines.len() {
        seq![(0int, lines[at])] + header_rows(lines.take(at)).reverse()
    } else {
        header_rows(lines).reverse()
    }
}

/// Reading the picture of a tree gives the rows of the tree: every node
/// in the order in which the tree is walked, with its depth and the first
/// line of its label.  For that no label may hold a connector, the first
/// line of a label no escape, and the first line of the root's label must
/// not start like an indentation.
pub proof fn lemma_picture_reads_back<T: WithChildren>(root: Node<T>)
    requires
        plain(root),
        units(first_line(root.label@)) == 0,
    ensures
        read_spec(tree::picture_spec(root)) == rows(root, 0),
{
    let label = root.label@;
    let kids = root.children@;
    let own = text::split_spec(label, '\n');
    lemma_split_pieces(label);
    assert(stands(label, label, rows_below(kids, 1, 0))) by {
        assert(own.skip(0) =~= own);
        assert(own.take(0) =~= Seq::<Seq<char>>::empty());
        assert(header_rows(own.take(0)).reverse() =~= Seq::<(int, Seq<char>)>::empty());
    }
    assert forall|i: int| 0 <= i < kids.len() implies plain(#[trigger] kids[i]) by {}
    lemma_stack_up_stands(kids, 0, 0, label, label);
    let picture = tree::picture_spec(root);
    let lines = text::split_spec(picture, '\n');
    let above = lines.len() - own.len();
    assert(lines[above] == lines.skip(above)[0]);
    lemma_pieces_no_pointer(label);
    lemma_no_pointer_no_header(own[0]);
    assert forall|i: int| 0 <= i < above implies !root_line(#[trigger] lines[i]) by {
        assert(lines.take(above)[i] == lines[i]);
    }
    lemma_root_at(lines, above);
}

/// The depths of the rows.
pub open spec fn row_depths(said: Seq<(int, Seq<char>)>) -> Seq<int> {
    Seq::new(said.len(), |r: int| said[r].0)
}

/// The row that row `r` hangs from by what the picture shows: the nearest
/// row before it that is less deep.
pub open spec fn row_parent(said: Seq<(int, Seq<char>)>, r: int) -> Option<int> {
    outline::nearest_shallower(row_depths(said), said[r].0, r)
}

/// The rows that the nodes of a tree hang from, in the order of its rows,
/// where the node itself stands in row `at` and hangs from `up`: every child
/// hangs from the row of the node.
pub open spec fn hangs<T: WithChildren>(node: Node<T>, at: int, up: Option<int>) -> Seq<
    Option<int>,
>
    decreases node, 0nat,
{
    seq![up] + hangs_below(node.children@, at + 1, at, node.children@.len() as int)
}

/// The rows that the nodes of the first `n` of the trees hang from, where
/// the first of the trees starts in row `start` and all of them hang from
/// row `up`.
pub open spec fn hangs_below<T: WithChildren>(kids: Seq<Node<T>>, start: int, up: int, n: int) -> Seq<
    Option<int>,
>
    decreases kids, n,
{
    if n <= 0 || n > kids.len() {
        Seq::empty()
    } else {
        let before = hangs_below(kids, start, up, n - 1);
        before + hangs(kids[n - 1], start + before.len(), Some(up))
    }
}

/// A tree has a row for each of its nodes, and none of them is less deep
/// than the tree's own.
pub proof fn lemma_rows_of_tree<T: WithChildren>(
    node: Node<T>,
    depth: int,
    at: int,
    up: Option<int>,
)
    ensures
        rows(node, depth).len() == hangs(node, at, up).len(),
        rows(node, depth).len() >= 1,
        rows(node, depth)[0] == (depth, first_line(node.label@)),
        forall|r: int| 0 <= r < rows(node, depth).len() ==> (#[trigger] rows(node, depth)[r]).0 >= depth,
    decreases node, 0nat,
{
    let n = node.children@.len() as int;
    lemma_rows_of_trees(node.children@, depth + 1, at + 1, at, n);
    let below = rows_below(node.children@, depth + 1, n);
    let all = rows(node, depth);
    assert forall|r: int| 0 <= r < all.len() implies (#[trigger] all[r]).0 >= depth by {
        if r > 0 {
            assert(all[r] == below[r - 1]);
        }
    }
}

/// The first `n` of the trees have a row for each of their nodes, and none
/// of them is less deep than the trees.
pub proof fn lemma_rows_of_trees<T: WithChildren>(
    kids: Seq<Node<T>>,
    depth: int,
    start: int,
    up: int,
    n: int,
)
    ensures
        rows_below(kids, depth, n).len() == hangs_below(kids, start, up, n).len(),
        forall|r: int|
            0 <= r < rows_below(kids, depth, n).len() ==> (#[trigger] rows_below(
                kids,
                depth,
                n,
            )[r]).0 >= depth,
    decreases kids, n,
{
    if 0 < n <= kids.len() {
        lemma_rows_of_trees(kids, depth, start, up, n - 1);
        let before = rows_below(kids, depth, n - 1);
        let hung = hangs_below(kids, start, up, n - 1);
        lemma_rows_of_tree(kids[n - 1], depth, start + hung.len(), Some(up));
        let own = rows(kids[n - 1], depth);
        let all = rows_below(kids, depth, n);
        assert forall|r: int| 0 <= r < all.len() implies (#[trigger] all[r]).0 >= depth by {
            if r < before.len() {
                assert(all[r] == before[r]);
            } else {
                assert(all[r] == own[r - before.len()]);
            }
        }
    }
}

/// Wherever the rows of a tree are put: if the rows before them are such
/// that the tree's own row hangs from `up`, every row of the tree hangs, by
/// what the depths show, from the row that it hangs from in the tree.
pub proof fn lemma_tree_hangs<T: WithChildren>(
    node: Node<T>,
    depth: int,
    before: Seq<int>,
    up: Option<int>,
)
    requires
        outline::nearest_shallower(before.push(depth), depth, before.len() as int) == up,
    ensures
        forall|r: int|
            0 <= r < rows(node, depth).len() ==> outline::nearest_shallower(
                before + row_depths(rows(node, depth)),
                (#[trigger] rows(node, depth)[r]).0,
                before.len() + r,
            ) == hangs(node, before.len() as int, up)[r],
    decreases node, 0nat,
{
    let n = node.children@.len() as int;
    let at = before.len() as int;
    let own = rows(node, depth);
    let below = rows_below(node.children@, depth + 1, n);
    let head = before.push(depth);
    let whole = before + row_depths(own);
    lemma_rows_of_tree(node, depth, at, up);
    lemma_rows_of_trees(node.children@, depth + 1, at + 1, at, n);
    assert(whole =~= head + row_depths(below));
    outline::lemma_nearest_ignores_rest(head, row_depths(below), depth, at);
    lemma_trees_hang(node.children@, depth + 1, head, n);
    assert forall|r: int| 0 <= r < own.len() implies outline::nearest_shallower(
        whole,
        (#[trigger] own[r]).0,
        at + r,
    ) == hangs(node, at, up)[r] by {
        if r > 0 {
            assert(own[r] == below[r - 1]);
            assert(head.len() + (r - 1) == at + r);
        }
    }
}

/// Behind rows of which the last is less deep than the trees, every row of
/// the first `n` of the trees hangs, by what the depths show, from the row
/// that it hangs from in its tree, and the trees themselves from that last
/// row.
pub proof fn lemma_trees_hang<T: WithChildren>(
    kids: Seq<Node<T>>,
    depth: int,
    head: Seq<int>,
    n: int,
)
    requires
        head.len() > 0,
        head.last() < depth,
        0 <= n <= kids.len(),
    ensures
        forall|r: int|
            0 <= r < rows_below(kids, depth, n).len() ==> outline::nearest_shallower(
                head + row_depths(rows_below(kids, depth, n)),
                (#[trigger] rows_below(kids, depth, n)[r]).0,
                head.len() + r,
            ) == hangs_below(kids, head.len() as int, head.len() - 1, n)[r],
    decreases kids, n,
{
    if n > 0 {
        let start = head.len() as int;
        let prev = rows_below(kids, depth, n - 1);
        let hung = hangs_below(kids, start, start - 1, n - 1);
        let own = rows(kids[n - 1], depth);
        let all = rows_below(kids, depth, n);
        let before = head + row_depths(prev);
        lemma_trees_hang(kids, depth, head, n - 1);
        lemma_rows_of_trees(kids, depth, start, start - 1, n - 1);
        lemma_rows_of_tree(kids[n - 1], depth, start + hung.len(), Some(start - 1));
        assert(head + row_depths(all) =~= before + row_depths(own));
        assert(outline::nearest_shallower(before.push(depth), depth, before.len() as int) == Some(
            start - 1,
        )) by {
            outline::lemma_nearest_ignores_rest(before, seq![depth], depth, before.len() as int);
            assert(before.push(depth) =~= before + seq![depth]);
            outline::lemma_nearest_skips_deeper(head, row_depths(prev), depth);
        }
        lemma_tree_hangs(kids[n - 1], depth, before, Some(start - 1));
        assert forall|r: int| 0 <= r < all.len() implies outline::nearest_shallower(
            head + row_depths(all),
            (#[trigger] all[r]).0,
            start + r,
        ) == hangs_below(kids, start, start - 1, n)[r] by {
            if r < prev.len() {
                assert(all[r] == prev[r]);
                outline::lemma_nearest_ignores_rest(before, row_depths(own), prev[r].0, start + r);
            } else {
                assert(all[r] == own[r - prev.len()]);
                assert(before.len() + (r - prev.len()) == start + r);
            }
        }
    }
}

/// In the picture of a tree every node hangs where it hangs in the tree:
/// the nearest row before its own that is less deep is the row of the node
/// that it is a child of, and only the root has no such row.
pub proof fn lemma_picture_hangs<T: WithChildren>(root: Node<T>)
    requires
        plain(root),
        units(first_line(root.label@)) == 0,
    ensures
        read_spec(tree::picture_spec(root)).len() == hangs(root, 0, None).len(),
        forall|r: int|
            0 <= r < hangs(root, 0, None).len() ==> row_parent(
                read_spec(tree::picture_spec(root)),
                r,
            ) == #[trigger] hangs(root, 0, None)[r],
{
    lemma_picture_reads_back(root);
    lemma_rows_of_tree(root, 0, 0, None);
    let before = Seq::<int>::empty();
    assert(before.push(0) =~= seq![0int]);
    lemma_tree_hangs(root, 0, before, None);
    let said = rows(root, 0);
    assert(before + row_depths(said) =~= row_depths(said));
    assert forall|r: int| 0 <= r < hangs(root, 0, None).len() implies row_parent(said, r)
        == #[trigger] hangs(root, 0, None)[r] by {
        assert(said[r].0 == said[r].0);
    }
}

/// Whether two blanks stand at place `p`.
fn blank_at(v: &Vec<char>, p: usize) -> (r: bool)
    requires
        p <= v@.len(),
    ensures
        r == blank_unit(v@.skip(p as int)),
{
    let r = v.len() - p >= 2 && v[p] == ' ' && v[p + 1] == ' ';
    proof {
        if v@.len() - p >= 2 {
            assert(v@.skip(p as int)[0] == v@[p as int]);
            assert(v@.skip(p as int)[1] == v@[p + 1]);
        }
    }
    r
}

/// Whether a bar in a colour stands at place `p`.
fn bar_at(v: &Vec<char>, p: usize) -> (r: bool)
    requires
        p <= v@.len(),
    ensures
        r == bar_unit(v@.skip(p as int)),
{
    let r = v.len() - p >= 11 && v[p] == '\u{1b}' && v[p + 1] == '[' && v[p + 4] == 'm' && v[p + 5]
        == '|' && v[p + 6] == ' ' && v[p + 7] == '\u{1b}' && v[p + 8] == '[' && v[p + 9] == '0'
        && v[p + 10] == 'm';
    proof {
        if v@.len() - p >= 11 {
            let rest = v@.skip(p as int);
            assert forall|i: int| 0 <= i < 11 implies rest[i] == v@[p + i] by {}
        }
    }
    r
}

/// Whether the first line of a block starts at place `p`.
fn header_at(v: &Vec<char>, p: usize) -> (r: bool)
    requires
        p <= v@.len(),
    ensures
        r == is_header(v@.skip(p as int)),
{
    let r = v.len() - p >= 7 && v[p] == '\u{1b}' && v[p + 1] == '[' && v[p + 4] == 'm' && (v[p
        + 5] == '\u{251c}' || v[p + 5] == '\u{250c}') && v[p + 6] == '\u{2500}';
    proof {
        if v@.len() - p >= 7 {
            let rest = v@.skip(p as int);
            assert forall|i: int| 0 <= i < 7 implies rest[i] == v@[p + i] by {}
        }
    }
    r
}

/// The name on the first line of a block that starts at place `p`.
fn name_at(v: &Vec<char>, p: usize) -> (r: String)
    requires
        p + 7 <= v@.len(),
    ensures
        r@ == header_name(v@.skip(p as int)),
{
    let n = v.len();
    let from = p + 7;
    let ghost name = v@.skip(p as int).skip(7);
    assert(name =~= v@.skip(from as int));
    let ends = n - from >= 4 && v[n - 4] == '\u{1b}' && v[n - 3] == '[' && v[n - 2] == '0' && v[n
        - 1] == 'm';
    proof {
        if n - from >= 4 {
            let m = name.len() as int;
            assert(name[m - 4] == v@[n - 4]);
            assert(name[m - 3] == v@[n - 3]);
            assert(name[m - 2] == v@[n - 2]);
            assert(name[m - 1] == v@[n - 1]);
        }
    }
    if ends {
        assert(name.take(name.len() - 4) =~= v@.subrange(from as int, n - 4));
        text::substring(v, from, n - 4)
    } else {
        assert(name =~= v@.subrange(from as int, n as int));
        text::substring(v, from, n)
    }
}

/// By how many levels a line is indented, and the place at which what
/// stands behind the indentation starts.
pub fn indentation(v: &Vec<char>) -> (r: (usize, usize))
    ensures
        r.0 == units(v@),
        r.0 <= r.1 <= v@.len(),
        behind_units(v@) == v@.skip(r.1 as int),
{
    let mut levels: usize = 0;
    let mut p: usize = 0;
    let mut more = true;
    assert(v@.skip(0) =~= v@);
    while more
        invariant
            levels <= p <= v.len(),
            units(v@) == levels + units(v@.skip(p as int)),
            behind_units(v@) == behind_units(v@.skip(p as int)),
            !more ==> !blank_unit(v@.skip(p as int)) && !bar_unit(v@.skip(p as int)),
        decreases v.len() - p + (if more { 1nat } else { 0nat }),
    {
        if blank_at(v, p) {
            assert(v@.skip(p as int).skip(2) =~= v@.skip(p + 2));
            p += 2;
            levels += 1;
        } else if bar_at(v, p) {
            assert(v@.skip(p as int).skip(11) =~= v@.skip(p + 11));
            p += 11;
            levels += 1;
        } else {
            more = false;
        }
    }
    (levels, p)
}

/// The rows of names and depths that stand at the same places.
pub open spec fn paired(names: Seq<String>, depths: Seq<usize>) -> Seq<(int, Seq<char>)> {
    Seq::new(names.len(), |i: int| (depths[i] as int, names[i]@))
}

/// Reads the picture of a tree: the root first and then the nodes above it
/// from the bottom up, each with the first line of its label, how deep it
/// hangs, and the row it hangs from, which is the nearest row before it that
/// is less deep.
pub fn read_picture(picture: &str) -> (r: Vec<OutlineRow>)
    ensures
        r@.len() == read_spec(picture@).len(),
        forall|i: int|
            0 <= i < r@.len() ==> {
                &&& (#[trigger] r@[i]).name@ == read_spec(picture@)[i].1
                &&& r@[i].depth == read_spec(picture@)[i].0
                &&& (match row_parent(read_spec(picture@), i) {
                    Some(q) => r@[i].parent == Some(q as usize),
                    None => r@[i].parent is None,
                })
            },
{
    let lines = text::split(picture, '\n');
    let ghost all = text::views(lines@);
    let n = lines.len();
    let mut at: usize = 0;
    let mut found = false;
    while at < n && !found
        invariant
            at <= n,
            n == lines@.len(),
            all == text::views(lines@),
            forall|j: int| 0 <= j < at ==> !root_line(#[trigger] all[j]),
            found ==> at < n && root_line(all[at as int]),
        decreases n - at + (if found { 0nat } else { 1nat }),
    {
        let v = text::chars_of(lines[at].as_str());
        assert(v@ == all[at as int]);
        let (levels, start) = indentation(&v);
        if levels == 0 && !header_at(&v, start) {
            found = true;
        } else {
            at += 1;
        }
    }
    proof {
        lemma_root_at(all, at as int);
    }
    let mut names: Vec<String> = Vec::new();
    let mut depths: Vec<usize> = Vec::new();
    if at < n {
        names.push(lines[at].clone());
        depths.push(0);
    }
    let ghost base = paired(names@, depths@);
    let mut k: usize = at;
    assert(all.subrange(k as int, at as int) =~= Seq::<Seq<char>>::empty());
    assert(base + header_rows(all.subrange(k as int, at as int)).reverse() =~= base);
    while k > 0
        invariant
            k <= at <= n,
            n == lines@.len(),
            all == text::views(lines@),
            names@.len() == depths@.len(),
            paired(names@, depths@) == base + header_rows(
                all.subrange(k as int, at as int),
            ).reverse(),
        decreases k,
    {
        let v = text::chars_of(lines[k - 1].as_str());
        assert(v@ == all[k - 1]);
        let (levels, start) = indentation(&v);
        let ghost before = paired(names@, depths@);
        let ghost upper = all.subrange(k as int, at as int);
        let ghost one = seq![all[k - 1]];
        proof {
            assert(all.subrange(k - 1, at as int) =~= one + upper);
            lemma_header_rows_concat(one, upper);
            assert(one.drop_last() =~= Seq::<Seq<char>>::empty());
            assert(one.last() == all[k - 1]);
            assert(header_rows(one.drop_last()) =~= Seq::<(int, Seq<char>)>::empty());
        }
        if header_at(&v, start) {
            let name = name_at(&v, start);
            let ghost row = ((levels + 1) as int, name@);
            names.push(name);
            depths.push(levels + 1);
            proof {
                assert(header_rows(one) =~= seq![row]);
                assert((seq![row] + header_rows(upper)).reverse() =~= header_rows(
                    upper,
                ).reverse().push(row));
                assert(paired(names@, depths@) =~= before.push(row));
            }
        } else {
            proof {
                assert(header_rows(one) =~= Seq::<(int, Seq<char>)>::empty());
                assert(header_rows(one) + header_rows(upper) =~= header_rows(upper));
            }
        }
        k -= 1;
    }
    proof {
        assert(all.subrange(0, at as int) =~= all.take(at as int));
        if at >= n {
            assert(all.take(at as int) =~= all);
            assert(base =~= Seq::<(int, Seq<char>)>::empty());
            assert(base + header_rows(all).reverse() =~= header_rows(all).reverse());
        } else {
            assert(base =~= seq![(0int, all[at as int])]);
        }
        assert(paired(names@, depths@) == read_spec(picture@));
    }
    hang(&names, &depths)
}

/// The rows of the names and depths, each with the row it hangs from: the
/// nearest row before it that is less deep.
pub fn hang(names: &Vec<String>, depths: &Vec<usize>) -> (r: Vec<OutlineRow>)
    requires
        names@.len() == depths@.len(),
    ensures
        r@.len() == names@.len(),
        forall|i: int|
            0 <= i < r@.len() ==> {
                &&& (#[trigger] r@[i]).name@ == names@[i]@
                &&& r@[i].depth == depths@[i]
                &&& (match row_parent(paired(names@, depths@), i) {
                    Some(q) => r@[i].parent == Some(q as usize),
                    None => r@[i].parent is None,
                })
            },
{
    let ghost said = paired(names@, depths@);
    let ghost levels = row_depths(said);
    let mut out: Vec<OutlineRow> = Vec::new();
    let mut i: usize = 0;
    while i < names.len()
        invariant
            i <= names.len(),
            names@.len() == depths@.len(),
            said == paired(names@, depths@),
            levels == row_depths(said),
            out@.len() == i,
            forall|k: int|
                0 <= k < i ==> {
                    &&& (#[trigger] out@[k]).name@ == names@[k]@
                    &&& out@[k].depth == depths@[k]
                    &&& (match row_parent(said, k) {
                        Some(q) => out@[k].parent == Some(q as usize),
                        None => out@[k].parent is None,
                    })
                },
        decreases names.len() - i,
    {
        let depth = depths[i];
        let mut j: usize = i;
        let mut parent: Option<usize> = None;
        while j > 0 && parent.is_none()
            invariant
                j <= i < names.len(),
                names@.len() == depths@.len(),
                said == paired(names@, depths@),
                levels == row_depths(said),
                parent is None ==> outline::nearest_shallower(levels, depth as int, i as int)
                    == outline::nearest_shallower(levels, depth as int, j as int),
                parent is Some ==> outline::nearest_shallower(levels, depth as int, i as int)
                    == Some(parent->0 as int),
            decreases j + (if parent is None { 1nat } else { 0nat }),
        {
            assert(levels[j - 1] == depths@[j - 1]);
            if depths[j - 1] < depth {
                parent = Some(j - 1);
            } else {
                j -= 1;
            }
        }
        proof {
            assert(said[i as int].0 == depth);
        }
        out.push(OutlineRow { name: names[i].clone(), depth, parent });
        i += 1;
    }
    out
}

} // verus!
