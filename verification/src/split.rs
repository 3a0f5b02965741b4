//! Lines whose parts have one character between them.

use vstd::prelude::*;

verus! {

/// The parts of a line: what stands before, between and after each `sep`.
pub open spec fn split(line: Seq<char>, sep: char) -> Seq<Seq<char>>
    decreases line.len(),
{
    if line.len() == 0 {
        seq![line]
    } else {
        let before = split(line.drop_last(), sep);
        if line.last() == sep {
            before.push(seq![])
        } else {
            before.drop_last().push(before.last().push(line.last()))
        }
    }
}

/// The line of these parts, with `sep` between them.
pub open spec fn joined(parts: Seq<Seq<char>>, sep: char) -> Seq<char>
    decreases parts.len(),
{
    if parts.len() == 0 {
        seq![]
    } else if parts.len() == 1 {
        parts[0]
    } else {
        joined(parts.drop_last(), sep) + seq![sep] + parts.last()
    }
}

/// A line has a part, whatever it holds.
pub proof fn lemma_split_len(line: Seq<char>, sep: char)
    ensures
        split(line, sep).len() > 0,
    decreases line.len(),
{
    if line.len() > 0 {
        lemma_split_len(line.drop_last(), sep);
    }
}

/// Splitting a line and joining its parts again gives the line, and no part holds
/// what they were split at.
pub proof fn lemma_parts_join_back(line: Seq<char>, sep: char)
    ensures
        split(line, sep).len() > 0,
        joined(split(line, sep), sep) == line,
        forall|i: int, j: int|
            0 <= i < split(line, sep).len() && 0 <= j < split(line, sep)[i].len() ==> #[trigger] split(
                line,
                sep,
            )[i][j] != sep,
    decreases line.len(),
{
    if line.len() > 0 {
        let rest = line.drop_last();
        let c = line.last();
        let before = split(rest, sep);
        lemma_parts_join_back(rest, sep);
        if c == sep {
            assert(split(line, sep).drop_last() =~= before);
            assert(joined(split(line, sep), sep) =~= rest.push(c));
        } else {
            let grown = before.last().push(c);
            assert(split(line, sep).drop_last() =~= before.drop_last());
            assert forall|i: int, j: int|
                0 <= i < split(line, sep).len() && 0 <= j < split(line, sep)[i].len() implies
                #[trigger] split(line, sep)[i][j] != sep by {
                if i == before.len() - 1 {
                    if j < before.last().len() {
                        assert(before[i][j] != sep);
                    }
                } else {
                    assert(before[i][j] != sep);
                }
            }
            if before.len() == 1 {
                assert(joined(split(line, sep), sep) =~= rest.push(c));
            } else {
                assert(joined(split(line, sep), sep) =~= joined(before, sep).push(c));
            }
        }
        assert(rest.push(c) =~= line);
    }
}

/// Text that holds no `sep` adds to the last part.
proof fn lemma_last_part_grows(line: Seq<char>, text: Seq<char>, sep: char)
    requires
        forall|i: int| 0 <= i < text.len() ==> text[i] != sep,
    ensures
        split(line + text, sep) == split(line, sep).drop_last().push(split(line, sep).last() + text),
    decreases text.len(),
{
    lemma_split_len(line, sep);
    if text.len() == 0 {
        assert(line + text =~= line);
        assert(split(line, sep).last() + text =~= split(line, sep).last());
        assert(split(line, sep).drop_last().push(split(line, sep).last()) =~= split(line, sep));
    } else {
        let fewer = text.drop_last();
        lemma_last_part_grows(line, fewer, sep);
        assert((line + text).drop_last() =~= line + fewer);
        let before = split(line + fewer, sep);
        assert(before.drop_last() =~= split(line, sep).drop_last());
        assert((split(line, sep).last() + fewer).push(text.last()) =~= split(line, sep).last() + text);
    }
}

/// Joining parts and splitting the line again gives the parts, as long as none of
/// them holds what stands between them.
pub proof fn lemma_joined_line_splits_back(parts: Seq<Seq<char>>, sep: char)
    requires
        parts.len() > 0,
        forall|i: int, j: int|
            0 <= i < parts.len() && 0 <= j < parts[i].len() ==> #[trigger] parts[i][j] != sep,
    ensures
        split(joined(parts, sep), sep) == parts,
    decreases parts.len(),
{
    let last = parts.last();
    assert forall|j: int| 0 <= j < last.len() implies last[j] != sep by {
        assert(parts[parts.len() - 1][j] != sep);
    }
    if parts.len() == 1 {
        let empty = Seq::<char>::empty();
        lemma_last_part_grows(empty, last, sep);
        assert(empty + last =~= last);
        assert(split(empty, sep).drop_last() =~= Seq::<Seq<char>>::empty());
        assert(split(last, sep) =~= parts);
    } else {
        let front = parts.drop_last();
        assert forall|i: int, j: int|
            0 <= i < front.len() && 0 <= j < front[i].len() implies #[trigger] front[i][j]
            != sep by {
            assert(parts[i][j] != sep);
        }
        lemma_joined_line_splits_back(front, sep);
        let opened = joined(front, sep) + seq![sep];
        assert(opened.drop_last() =~= joined(front, sep));
        assert(split(opened, sep) == front.push(seq![]));
        lemma_last_part_grows(opened, last, sep);
        assert(split(opened, sep).drop_last() =~= front);
        assert(Seq::<char>::empty() + last =~= last);
        assert(front.push(last) =~= parts);
    }
}

} // verus!
