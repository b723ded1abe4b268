//! Splitting raw text into lines and joining lines back into raw text.
//!
//! A line break is a single `'\n'`. Splitting treats the text as if a
//! synthetic trailing newline were appended, so text that is completely empty
//! yields exactly one empty line and a final fragment without a terminator
//! still becomes a line of its own. Joining puts `'\n'` between consecutive
//! lines and appends nothing at the end. The two are exact inverses.

use vstd::prelude::*;

verus! {

/// The lines of `text`, split on `'\n'`: always at least one line, none of
/// which contains `'\n'`.
pub open spec fn split_text(text: Seq<char>) -> Seq<Seq<char>>
    decreases text.len(),
{
    if text.len() == 0 {
        seq![Seq::<char>::empty()]
    } else if text[0] == '\n' {
        seq![Seq::<char>::empty()] + split_text(text.drop_first())
    } else {
        let rest = split_text(text.drop_first());
        seq![seq![text[0]] + rest[0]] + rest.drop_first()
    }
}

/// The lines joined with a single `'\n'` between consecutive lines and no
/// trailing newline.
pub open spec fn joined_text(lines: Seq<Seq<char>>) -> Seq<char>
    decreases lines.len(),
{
    if lines.len() == 0 {
        Seq::<char>::empty()
    } else if lines.len() == 1 {
        lines[0]
    } else {
        lines[0] + seq!['\n'] + joined_text(lines.drop_first())
    }
}

/// A line of the buffer: a sequence of characters with no embedded newline.
pub open spec fn no_newline(line: Seq<char>) -> bool {
    forall|i: int| 0 <= i < line.len() ==> line[i] != '\n'
}

/// Splitting on newlines leaves no newline inside any line.
pub proof fn lemma_split_text_no_newline(text: Seq<char>)
    ensures
        forall|i: int|
            0 <= i < split_text(text).len() ==> no_newline(#[trigger] split_text(text)[i]),
    decreases text.len(),
{
    if text.len() == 0 {
    } else if text[0] == '\n' {
        lemma_split_text_no_newline(text.drop_first());
        let rest = split_text(text.drop_first());
        let whole = seq![Seq::<char>::empty()] + rest;
        assert forall|i: int| 0 <= i < whole.len() implies no_newline(#[trigger] whole[i]) by {
            if i > 0 {
                assert(whole[i] == rest[i - 1]);
            }
        }
    } else {
        lemma_split_text_no_newline(text.drop_first());
        lemma_split_text_never_empty(text.drop_first());
        let rest = split_text(text.drop_first());
        let whole = seq![seq![text[0]] + rest[0]] + rest.drop_first();
        assert forall|i: int| 0 <= i < whole.len() implies no_newline(#[trigger] whole[i]) by {
            if i == 0 {
                assert(no_newline(rest[0]));
                assert(forall|j: int|
                    0 <= j < whole[0].len() ==> #[trigger] whole[0][j] == (seq![text[0]]
                        + rest[0])[j]);
            } else {
                assert(whole[i] == rest[i - 1 + 1]);
                assert(no_newline(rest[i]));
            }
        }
    }
}

/// Splitting always produces at least one line.
pub proof fn lemma_split_text_never_empty(text: Seq<char>)
    ensures
        split_text(text).len() >= 1,
    decreases text.len(),
{
    if text.len() == 0 {
    } else if text[0] == '\n' {
        lemma_split_text_never_empty(text.drop_first());
    } else {
        lemma_split_text_never_empty(text.drop_first());
    }
}

/// Load/save round trip: joining the lines that `text` splits into gives back
/// `text` itself, byte for byte, whatever `text` ends in.
pub proof fn lemma_join_split_text(text: Seq<char>)
    ensures
        joined_text(split_text(text)) == text,
    decreases text.len(),
{
    if text.len() == 0 {
        assert(joined_text(split_text(text)) =~= text);
    } else if text[0] == '\n' {
        lemma_join_split_text(text.drop_first());
        lemma_split_text_never_empty(text.drop_first());
        let rest = split_text(text.drop_first());
        let whole = seq![Seq::<char>::empty()] + rest;
        assert(whole.len() >= 2);
        assert(whole[0] =~= Seq::<char>::empty());
        assert(whole.drop_first() =~= rest);
        assert(joined_text(whole) =~= whole[0] + seq!['\n'] + joined_text(rest));
        assert(joined_text(whole) =~= text);
    } else {
        lemma_join_split_text(text.drop_first());
        lemma_split_text_never_empty(text.drop_first());
        let rest = split_text(text.drop_first());
        let head = seq![seq![text[0]] + rest[0]];
        let whole = head + rest.drop_first();
        assert(whole[0] =~= seq![text[0]] + rest[0]);
        if rest.len() == 1 {
            assert(whole.len() == 1);
            assert(joined_text(whole) == whole[0]);
            assert(joined_text(rest) == rest[0]);
            assert(joined_text(whole) =~= text);
        } else {
            assert(whole.len() >= 2);
            assert(whole.drop_first() =~= rest.drop_first());
            assert(joined_text(whole) == whole[0] + seq!['\n'] + joined_text(whole.drop_first()));
            assert(joined_text(rest) == rest[0] + seq!['\n'] + joined_text(rest.drop_first()));
            let tail_join = joined_text(rest.drop_first());
            assert(joined_text(whole) =~= seq![text[0]] + rest[0] + seq!['\n'] + tail_join);
            assert(text.drop_first() == rest[0] + seq!['\n'] + tail_join);
            assert(text =~= seq![text[0]] + text.drop_first());
            assert(seq![text[0]] + (rest[0] + seq!['\n'] + tail_join) =~= seq![text[0]] + rest[0]
                + seq!['\n'] + tail_join);
            assert(joined_text(whole) =~= text);
        }
    }
}

/// A line without newlines splits into just itself.
proof fn lemma_split_of_one_line(line: Seq<char>)
    requires
        no_newline(line),
    ensures
        split_text(line) == seq![line],
    decreases line.len(),
{
    if line.len() == 0 {
        assert(split_text(line) =~~= seq![line]);
    } else {
        assert(line[0] != '\n');
        assert(no_newline(line.drop_first()));
        lemma_split_of_one_line(line.drop_first());
        let rest = split_text(line.drop_first());
        assert(rest == seq![line.drop_first()]);
        assert(rest.drop_first() =~~= Seq::<Seq<char>>::empty());
        assert(seq![line[0]] + rest[0] =~= line);
        assert(split_text(line) =~~= seq![line]);
    }
}

/// Splitting a newline-free head, a newline and a tail peels off exactly the
/// head as the first line.
proof fn lemma_split_peels_head(head: Seq<char>, tail: Seq<char>)
    requires
        no_newline(head),
    ensures
        split_text(head + seq!['\n'] + tail) == seq![head] + split_text(tail),
    decreases head.len(),
{
    let whole = head + seq!['\n'] + tail;
    if head.len() == 0 {
        assert(whole[0] == '\n');
        assert(whole.drop_first() =~= tail);
        assert(split_text(whole) =~~= seq![head] + split_text(tail));
    } else {
        assert(whole[0] == head[0]);
        assert(head[0] != '\n');
        assert(no_newline(head.drop_first()));
        lemma_split_peels_head(head.drop_first(), tail);
        assert(whole.drop_first() =~= head.drop_first() + seq!['\n'] + tail);
        let rest = split_text(whole.drop_first());
        assert(rest == seq![head.drop_first()] + split_text(tail));
        assert(rest[0] == head.drop_first());
        assert(seq![whole[0]] + rest[0] =~= head);
        assert(rest.drop_first() =~~= split_text(tail));
        assert(split_text(whole) =~~= seq![head] + split_text(tail));
    }
}

/// Save/load round trip seen from the line store: splitting the joined text
/// of at least one newline-free line gives back exactly those lines.
pub proof fn lemma_split_join_text(lines: Seq<Seq<char>>)
    requires
        lines.len() >= 1,
        forall|i: int| 0 <= i < lines.len() ==> no_newline(#[trigger] lines[i]),
    ensures
        split_text(joined_text(lines)) == lines,
    decreases lines.len(),
{
    if lines.len() == 1 {
        assert(joined_text(lines) == lines[0]);
        lemma_split_of_one_line(lines[0]);
        assert(split_text(joined_text(lines)) =~~= lines);
    } else {
        let rest = lines.drop_first();
        assert(forall|i: int| 0 <= i < rest.len() ==> no_newline(#[trigger] rest[i]));
        lemma_split_join_text(rest);
        lemma_split_peels_head(lines[0], joined_text(rest));
        assert(joined_text(lines) == lines[0] + seq!['\n'] + joined_text(rest));
        assert(split_text(joined_text(lines)) == seq![lines[0]] + rest);
        assert(seq![lines[0]] + rest =~~= lines);
    }
}

/// How one step of a left-to-right scan refines the split: the split of the
/// text from position `i` on is the split of the text from `i + 1` on, with
/// either a fresh empty line in front (at a newline) or `text[i]` prepended to
/// its first line.
proof fn lemma_split_text_step(text: Seq<char>, i: int)
    requires
        0 <= i < text.len(),
    ensures
        text[i] == '\n' ==> split_text(text.skip(i)) == seq![Seq::<char>::empty()] + split_text(
            text.skip(i + 1),
        ),
        text[i] != '\n' ==> split_text(text.skip(i)) == seq![
            seq![text[i]] + split_text(text.skip(i + 1))[0],
        ] + split_text(text.skip(i + 1)).drop_first(),
{
    assert(text.skip(i).len() > 0);
    assert(text.skip(i)[0] == text[i]);
    assert(text.skip(i).drop_first() =~= text.skip(i + 1));
}

/// Splits `content` into its lines, as [`split_text`] describes.
pub fn split_content(content: &Vec<char>) -> (lines: Vec<Vec<char>>)
    ensures
        lines.deep_view() == split_text(content@),
        lines@.len() >= 1,
{
    let mut lines: Vec<Vec<char>> = Vec::new();
    let mut current: Vec<char> = Vec::new();
    let n = content.len();
    let mut i: usize = 0;
    proof {
        lemma_split_text_never_empty(content@);
        assert(content@.skip(0) =~= content@);
        assert(lines.deep_view() + seq![current@ + split_text(content@.skip(0))[0]] + split_text(
            content@.skip(0),
        ).drop_first() =~= split_text(content@));
    }
    while i < n
        invariant
            0 <= i <= n,
            n == content@.len(),
            split_text(content@) =~~= lines.deep_view() + seq![
                current@ + split_text(content@.skip(i as int))[0],
            ] + split_text(content@.skip(i as int)).drop_first(),
        decreases n - i,
    {
        let c = content[i];
        proof {
            lemma_split_text_step(content@, i as int);
            lemma_split_text_never_empty(content@.skip(i as int));
            lemma_split_text_never_empty(content@.skip(i + 1));
        }
        let ghost old_lines = lines.deep_view();
        let ghost old_current = current@;
        if c == '\n' {
            lines.push(current);
            current = Vec::new();
            proof {
                assert(lines.deep_view() =~~= old_lines + seq![old_current]);
                let rest = split_text(content@.skip(i + 1));
                assert(old_current + split_text(content@.skip(i as int))[0] =~= old_current);
                assert(split_text(content@.skip(i as int)).drop_first() =~= rest);
                assert(old_lines + seq![old_current] + seq![current@ + rest[0]]
                    + rest.drop_first() =~~= old_lines + seq![old_current] + rest);
            }
        } else {
            current.push(c);
            proof {
                assert(lines.deep_view() =~~= old_lines);
                let rest = split_text(content@.skip(i + 1));
                assert(split_text(content@.skip(i as int))[0] =~= seq![c] + rest[0]);
                assert(old_current + (seq![c] + rest[0]) =~= current@ + rest[0]);
                assert(split_text(content@.skip(i as int)).drop_first() =~= rest.drop_first());
            }
        }
        i = i + 1;
    }
    proof {
        assert(content@.skip(n as int) =~= Seq::<char>::empty());
        let last = split_text(content@.skip(n as int));
        assert(last =~~= seq![Seq::<char>::empty()]);
        assert(current@ + last[0] =~= current@);
        assert(last.drop_first() =~~= Seq::<Seq<char>>::empty());
        assert(split_text(content@) =~~= lines.deep_view() + seq![current@]);
    }
    let ghost old_lines = lines.deep_view();
    let ghost old_current = current@;
    lines.push(current);
    proof {
        assert(lines.deep_view() =~~= old_lines + seq![old_current]);
    }
    lines
}

/// Joining one more line appends a separating newline and that line.
proof fn lemma_joined_text_push(lines: Seq<Seq<char>>, line: Seq<char>)
    requires
        lines.len() >= 1,
    ensures
        joined_text(lines.push(line)) == joined_text(lines) + seq!['\n'] + line,
    decreases lines.len(),
{
    let whole = lines.push(line);
    if lines.len() == 1 {
        assert(whole.drop_first() =~= seq![line]);
        assert(joined_text(whole.drop_first()) == line);
        assert(joined_text(whole) =~= joined_text(lines) + seq!['\n'] + line);
    } else {
        lemma_joined_text_push(lines.drop_first(), line);
        assert(whole.drop_first() =~= lines.drop_first().push(line));
        assert(joined_text(whole) == whole[0] + seq!['\n'] + joined_text(whole.drop_first()));
        assert(joined_text(whole) =~= joined_text(lines) + seq!['\n'] + line);
    }
}

/// Joins `lines` into one text, as [`joined_text`] describes.
pub fn join_lines_content(lines: &Vec<Vec<char>>) -> (content: Vec<char>)
    requires
        lines@.len() >= 1,
    ensures
        content@ == joined_text(lines.deep_view()),
{
    let mut content: Vec<char> = Vec::new();
    content.extend_from_slice(lines[0].as_slice());
    proof {
        assert(content@ =~= lines.deep_view()[0]);
        assert(lines.deep_view().take(1) =~~= seq![lines.deep_view()[0]]);
        assert(joined_text(lines.deep_view().take(1)) == lines.deep_view()[0]);
    }
    let mut i: usize = 1;
    while i < lines.len()
        invariant
            1 <= i <= lines@.len(),
            content@ =~= joined_text(lines.deep_view().take(i as int)),
        decreases lines@.len() - i,
    {
        let ghost before = lines.deep_view().take(i as int);
        content.push('\n');
        content.extend_from_slice(lines[i].as_slice());
        proof {
            lemma_joined_text_push(before, lines.deep_view()[i as int]);
            assert(lines.deep_view().take(i + 1) =~~= before.push(lines.deep_view()[i as int]));
            assert(content@ =~= joined_text(before) + seq!['\n'] + lines.deep_view()[i as int]);
        }
        i = i + 1;
    }
    proof {
        assert(lines.deep_view().take(lines@.len() as int) =~~= lines.deep_view());
    }
    content
}

} // verus!
