//! The text format of a table file: lines, and fields within a line.
//!
//! A file is a run of lines, each ended by a line feed; the last line may lack it. A line
//! is a run of fields with a comma between each two. Nothing is quoted or escaped, so a
//! field that holds a comma or a line feed does not survive being written and read back.

use vstd::prelude::*;
use vstd::string::*;

verus! {

/// The character between two fields of a line.
pub const FIELD_SEPARATOR: char = ',';

/// The character that ends a line.
pub const LINE_END: char = '\n';

/// `pieces` written one after the other with `sep` between each two.
pub open spec fn join(pieces: Seq<Seq<char>>, sep: char) -> Seq<char>
    decreases pieces.len(),
{
    if pieces.len() == 0 {
        Seq::empty()
    } else if pieces.len() == 1 {
        pieces[0]
    } else {
        join(pieces.drop_last(), sep).push(sep) + pieces.last()
    }
}

/// The pieces of `text` that lie between occurrences of `sep`. There is always one piece
/// more than there are separators: the empty text has one empty piece.
pub open spec fn split(text: Seq<char>, sep: char) -> Seq<Seq<char>>
    decreases text.len(),
{
    if text.len() == 0 {
        seq![Seq::empty()]
    } else {
        let before = split(text.drop_last(), sep);
        if text.last() == sep {
            before.push(Seq::empty())
        } else {
            before.drop_last().push(before.last().push(text.last()))
        }
    }
}

/// No piece holds the character `c`.
pub open spec fn free_of(pieces: Seq<Seq<char>>, c: char) -> bool {
    forall|i: int| 0 <= i < pieces.len() ==> !(#[trigger] pieces[i]).contains(c)
}

/// The lines of a file. A line feed at the very end ends the last line and opens no new
/// one, so the empty file has no line at all.
pub open spec fn lines_of(content: Seq<char>) -> Seq<Seq<char>> {
    let pieces = split(content, LINE_END);
    if pieces.last().len() == 0 {
        pieces.drop_last()
    } else {
        pieces
    }
}

/// The file that holds exactly `lines`, each ended by a line feed.
pub open spec fn text_of_lines(lines: Seq<Seq<char>>) -> Seq<char>
    decreases lines.len(),
{
    if lines.len() == 0 {
        Seq::empty()
    } else {
        text_of_lines(lines.drop_last()) + lines.last().push(LINE_END)
    }
}

/// `content` with `line` as one more line at its end. A last line that was left open is
/// closed first.
pub open spec fn append_line(content: Seq<char>, line: Seq<char>) -> Seq<char> {
    let closed = if content.len() == 0 || content.last() == LINE_END {
        content
    } else {
        content.push(LINE_END)
    };
    closed + line.push(LINE_END)
}

/// A split yields at least one piece.
pub proof fn lemma_split_len(text: Seq<char>, sep: char)
    ensures
        split(text, sep).len() >= 1,
    decreases text.len(),
{
    if text.len() > 0 {
        lemma_split_len(text.drop_last(), sep);
    }
}

/// The last piece is empty exactly when the text is empty or ends with the separator.
pub proof fn lemma_split_last(text: Seq<char>, sep: char)
    ensures
        split(text, sep).len() >= 1,
        split(text, sep).last().len() == 0 <==> (text.len() == 0 || text.last() == sep),
    decreases text.len(),
{
    if text.len() > 0 {
        lemma_split_len(text.drop_last(), sep);
    }
}

/// A character that the text does not hold is in none of its pieces, and the separator is
/// in none of them either.
pub proof fn lemma_split_free(text: Seq<char>, sep: char, c: char)
    requires
        c == sep || !text.contains(c),
    ensures
        free_of(split(text, sep), c),
    decreases text.len(),
{
    if text.len() > 0 {
        let shorter = text.drop_last();
        assert forall|k: int| 0 <= k < shorter.len() implies shorter[k] != c || c == sep by {
            assert(shorter[k] == text[k]);
        }
        if c != sep {
            assert(!shorter.contains(c)) by {
                if shorter.contains(c) {
                    let k = choose|k: int| 0 <= k < shorter.len() && shorter[k] == c;
                    assert(text[k] == c);
                }
            }
        }
        lemma_split_free(shorter, sep, c);
        lemma_split_len(shorter, sep);
        let before = split(shorter, sep);
        let pieces = split(text, sep);
        assert forall|i: int| 0 <= i < pieces.len() implies !(#[trigger] pieces[i]).contains(
            c,
        ) by {
            if text.last() == sep {
                if i < before.len() {
                    assert(pieces[i] == before[i]);
                }
            } else {
                if i < before.len() - 1 {
                    assert(pieces[i] == before[i]);
                } else {
                    let grown = before.last().push(text.last());
                    assert(pieces[i] == grown);
                    assert(text.last() != c) by {
                        if c != sep {
                            assert(text[text.len() - 1] == text.last());
                        }
                    }
                    if grown.contains(c) {
                        let k = choose|k: int| 0 <= k < grown.len() && grown[k] == c;
                        assert(k < before.last().len());
                        assert(before.last()[k] == c);
                        assert(before[before.len() - 1].contains(c));
                    }
                }
            }
        }
    }
}

/// A text without the separator is its own single piece.
pub proof fn lemma_split_single(text: Seq<char>, sep: char)
    requires
        !text.contains(sep),
    ensures
        split(text, sep) == seq![text],
    decreases text.len(),
{
    if text.len() == 0 {
        assert(text =~= Seq::empty());
    } else {
        let shorter = text.drop_last();
        assert(!shorter.contains(sep)) by {
            if shorter.contains(sep) {
                let k = choose|k: int| 0 <= k < shorter.len() && shorter[k] == sep;
                assert(text[k] == sep);
            }
        }
        lemma_split_single(shorter, sep);
        assert(text[text.len() - 1] != sep);
        assert(shorter.push(text.last()) =~= text);
        assert(split(text, sep) =~= seq![text]);
    }
}

/// Splitting a text that was put together around one separator splits both halves.
pub proof fn lemma_split_concat(a: Seq<char>, b: Seq<char>, sep: char)
    ensures
        split(a.push(sep) + b, sep) == split(a, sep) + split(b, sep),
    decreases b.len(),
{
    let whole = a.push(sep) + b;
    if b.len() == 0 {
        assert(whole =~= a.push(sep));
        assert(whole.drop_last() =~= a);
        assert(split(whole, sep) =~= split(a, sep) + split(b, sep));
    } else {
        let shorter = b.drop_last();
        assert(whole.drop_last() =~= a.push(sep) + shorter);
        assert(whole.last() == b.last());
        lemma_split_concat(a, shorter, sep);
        lemma_split_len(a, sep);
        lemma_split_len(shorter, sep);
        let left = split(a, sep);
        let right = split(shorter, sep);
        let before = left + right;
        assert(before.last() == right.last());
        if b.last() == sep {
            assert(before.push(Seq::empty()) =~= left + right.push(Seq::empty()));
        } else {
            assert(before.drop_last() =~= left + right.drop_last());
            assert(before.drop_last().push(before.last().push(b.last())) =~= left
                + right.drop_last().push(right.last().push(b.last())));
        }
    }
}

/// Splitting what was joined gives the pieces back, so long as there is at least one
/// piece and none holds the separator.
pub proof fn lemma_split_join(pieces: Seq<Seq<char>>, sep: char)
    requires
        pieces.len() >= 1,
        free_of(pieces, sep),
    ensures
        split(join(pieces, sep), sep) == pieces,
    decreases pieces.len(),
{
    if pieces.len() == 1 {
        lemma_split_single(pieces[0], sep);
        assert(seq![pieces[0]] =~= pieces);
    } else {
        let before = pieces.drop_last();
        assert(free_of(before, sep)) by {
            assert forall|i: int| 0 <= i < before.len() implies !(#[trigger] before[i]).contains(
                sep,
            ) by {
                assert(before[i] == pieces[i]);
            }
        }
        lemma_split_join(before, sep);
        lemma_split_concat(join(before, sep), pieces.last(), sep);
        assert(!pieces[pieces.len() - 1].contains(sep));
        lemma_split_single(pieces.last(), sep);
        assert(before + seq![pieces.last()] =~= pieces);
    }
}

/// A file written line by line reads back as those lines.
pub proof fn lemma_lines_of_text(lines: Seq<Seq<char>>)
    requires
        free_of(lines, LINE_END),
    ensures
        lines_of(text_of_lines(lines)) == lines,
    decreases lines.len(),
{
    if lines.len() == 0 {
        assert(lines_of(Seq::empty()) =~= lines);
    } else {
        let before = lines.drop_last();
        assert(free_of(before, LINE_END)) by {
            assert forall|i: int| 0 <= i < before.len() implies !(#[trigger] before[i]).contains(
                LINE_END,
            ) by {
                assert(before[i] == lines[i]);
            }
        }
        lemma_lines_of_text(before);
        assert(!lines[lines.len() - 1].contains(LINE_END));
        lemma_lines_append(text_of_lines(before), lines.last());
        lemma_text_of_lines_closed(before);
        assert(append_line(text_of_lines(before), lines.last()) == text_of_lines(lines));
        assert(before.push(lines.last()) =~= lines);
    }
}

/// A file written line by line is empty or ends with a line feed.
pub proof fn lemma_text_of_lines_closed(lines: Seq<Seq<char>>)
    ensures
        text_of_lines(lines).len() == 0 || text_of_lines(lines).last() == LINE_END,
        lines.len() == 0 <==> text_of_lines(lines).len() == 0,
{
}

/// Appending a line adds exactly that line to the lines of the file.
pub proof fn lemma_lines_append(content: Seq<char>, line: Seq<char>)
    requires
        !line.contains(LINE_END),
    ensures
        lines_of(append_line(content, line)) == lines_of(content).push(line),
{
    let result = append_line(content, line);
    lemma_split_last(result, LINE_END);
    lemma_split_last(content, LINE_END);
    lemma_split_single(line, LINE_END);
    assert(result.last() == LINE_END);
    assert(result.len() > 0);
    // the lines of `result` are the pieces of `result` without its last character
    if content.len() == 0 {
        assert(result.drop_last() =~= line);
        assert(lines_of(content) =~= Seq::empty());
        assert(seq![line] =~= Seq::<Seq<char>>::empty().push(line));
    } else if content.last() == LINE_END {
        let body = content.drop_last();
        assert(content =~= body.push(LINE_END));
        assert(result.drop_last() =~= body.push(LINE_END) + line);
        lemma_split_concat(body, line, LINE_END);
        assert(split(content, LINE_END) == split(body, LINE_END).push(Seq::empty()));
        assert(split(content, LINE_END).drop_last() =~= split(body, LINE_END));
        assert(split(body, LINE_END) + seq![line] =~= split(body, LINE_END).push(line));
    } else {
        assert(result.drop_last() =~= content.push(LINE_END) + line);
        lemma_split_concat(content, line, LINE_END);
        assert(split(content, LINE_END) + seq![line] =~= split(content, LINE_END).push(line));
    }
}

/// The first piece of a text is what stands before its first separator.
pub proof fn lemma_first_piece(text: Seq<char>, sep: char, upto: int)
    requires
        0 <= upto <= text.len(),
        !text.take(upto).contains(sep),
        upto == text.len() || text[upto] == sep,
    ensures
        split(text, sep)[0] == text.take(upto),
        upto < text.len() ==> split(text, sep).len() >= 2,
    decreases text.len(),
{
    if upto == text.len() {
        assert(text.take(upto) =~= text);
        lemma_split_single(text, sep);
    } else {
        let shorter = text.drop_last();
        assert(shorter.take(upto) =~= text.take(upto));
        if upto == shorter.len() {
            assert(shorter =~= text.take(upto));
            lemma_split_single(shorter, sep);
        } else {
            lemma_first_piece(shorter, sep, upto);
        }
    }
}

/// A file has a first line exactly when it is not empty, and that line is the first piece
/// of its text.
pub proof fn lemma_first_line(content: Seq<char>)
    ensures
        lines_of(content).len() > 0 <==> content.len() > 0,
        content.len() > 0 ==> lines_of(content)[0] == split(content, LINE_END)[0],
{
    lemma_split_last(content, LINE_END);
    if content.len() > 0 && content.last() == LINE_END {
        lemma_split_len(content.drop_last(), LINE_END);
    }
}

/// Adds one character to the end of a string, by `String::push`. Trusted: the call
/// appends `c` and changes nothing else.
#[verifier::external_body]
pub(crate) fn push_char(text: &mut String, c: char)
    ensures
        final(text)@ == old(text)@.push(c),
{
    text.push(c)
}

/// Cuts `text` at every occurrence of `sep`.
pub fn split_text(text: &str, sep: char) -> (pieces: Vec<String>)
    ensures
        pieces.deep_view() == split(text@, sep),
{
    let mut pieces: Vec<String> = Vec::new();
    let mut current = String::new();
    for c in it: text.chars()
        invariant
            it.seq() == text@,
            pieces.deep_view().push(current@) == split(text@.take(it.index() as int), sep),
    {
        let ghost done = it.index() as int;
        proof {
            assert(text@.take(done + 1).drop_last() =~= text@.take(done));
            assert(text@.take(done + 1).last() == c);
            lemma_split_len(text@.take(done), sep);
        }
        let ghost before = pieces.deep_view().push(current@);
        if c == sep {
            pieces.push(current);
            current = String::new();
            assert(pieces.deep_view().push(current@) =~= before.push(Seq::empty()));
        } else {
            push_char(&mut current, c);
            assert(pieces.deep_view().push(current@) =~= before.drop_last().push(
                before.last().push(c),
            ));
        }
    }
    proof {
        assert(text@.take(text@.len() as int) =~= text@);
    }
    pieces.push(current);
    pieces
}

/// Writes `pieces` one after the other with `sep` between each two.
pub fn join_text(pieces: &Vec<String>, sep: char) -> (text: String)
    ensures
        text@ == join(pieces.deep_view(), sep),
{
    let mut text = String::new();
    let mut i: usize = 0;
    while i < pieces.len()
        invariant
            i <= pieces.len(),
            text@ == join(pieces.deep_view().take(i as int), sep),
        decreases pieces.len() - i,
    {
        let ghost so_far = pieces.deep_view().take(i as int);
        let ghost next = pieces.deep_view().take(i as int + 1);
        proof {
            assert(next.drop_last() =~= so_far);
            assert(next.last() == pieces[i as int]@);
        }
        if i > 0 {
            push_char(&mut text, sep);
        }
        text.append(pieces[i].as_str());
        proof {
            if i == 0 {
                assert(text@ =~= pieces[0]@);
            }
        }
        i = i + 1;
    }
    proof {
        assert(pieces.deep_view().take(pieces.len() as int) =~= pieces.deep_view());
    }
    text
}

/// The lines of a file.
pub fn read_lines(content: &str) -> (lines: Vec<String>)
    ensures
        lines.deep_view() == lines_of(content@),
{
    let mut lines = split_text(content, LINE_END);
    proof {
        lemma_split_len(content@, LINE_END);
    }
    let last = lines.len() - 1;
    if lines[last].as_str().is_empty() {
        let ghost all = lines.deep_view();
        lines.pop();
        assert(lines.deep_view() =~= all.drop_last());
    }
    lines
}

/// The first line of a file, where it has one.
pub fn first_line(content: &str) -> (line: Option<String>)
    ensures
        match line {
            Some(text) => lines_of(content@).len() > 0 && text@ == lines_of(content@)[0],
            None => lines_of(content@).len() == 0,
        },
{
    proof {
        lemma_first_line(content@);
    }
    if content.is_empty() {
        return None;
    }
    let mut line = String::new();
    for c in it: content.chars()
        invariant
            it.seq() == content@,
            line@ == content@.take(it.index() as int),
            !line@.contains(LINE_END),
            content@.len() > 0,
            lines_of(content@).len() > 0,
            lines_of(content@)[0] == split(content@, LINE_END)[0],
    {
        if c == LINE_END {
            proof {
                lemma_first_piece(content@, LINE_END, it.index() as int);
            }
            return Some(line);
        }
        let ghost before = line@;
        push_char(&mut line, c);
        proof {
            assert(line@ =~= content@.take(it.index() + 1));
            if line@.contains(LINE_END) {
                let k = choose|k: int| 0 <= k < line@.len() && line@[k] == LINE_END;
                if k < before.len() {
                    assert(before[k] == LINE_END);
                }
            }
        }
    }
    proof {
        lemma_first_piece(content@, LINE_END, content@.len() as int);
    }
    Some(line)
}

/// Whether `c` occurs in `text`.
pub fn contains_char(text: &str, c: char) -> (found: bool)
    ensures
        found == text@.contains(c),
{
    let mut found = false;
    for other in it: text.chars()
        invariant
            it.seq() == text@,
            found == text@.take(it.index() as int).contains(c),
    {
        let ghost done = it.index() as int;
        proof {
            let longer = text@.take(done + 1);
            let shorter = text@.take(done);
            assert(longer.drop_last() =~= shorter);
            if shorter.contains(c) {
                let k = choose|k: int| 0 <= k < shorter.len() && shorter[k] == c;
                assert(longer[k] == c);
            }
            if other == c {
                assert(longer[done] == c);
            }
            if longer.contains(c) && other != c {
                let k = choose|k: int| 0 <= k < longer.len() && longer[k] == c;
                assert(shorter[k] == c);
            }
        }
        if other == c {
            found = true;
        }
    }
    proof {
        assert(text@.take(text@.len() as int) =~= text@);
    }
    found
}

/// Whether `text` is empty or ends with a line feed.
fn is_closed(text: &str) -> (closed: bool)
    ensures
        closed == (text@.len() == 0 || text@.last() == LINE_END),
{
    let mut closed = true;
    for c in it: text.chars()
        invariant
            it.seq() == text@,
            closed == (it.index() == 0 || text@[it.index() - 1] == LINE_END),
    {
        closed = c == LINE_END;
    }
    closed
}

/// `content` with `line` as one more line at its end.
pub fn append_text_line(content: &str, line: &str) -> (text: String)
    ensures
        text@ == append_line(content@, line@),
{
    let mut text = content.to_owned();
    if !is_closed(content) {
        push_char(&mut text, LINE_END);
    }
    text.append(line);
    push_char(&mut text, LINE_END);
    assert(text@ =~= append_line(content@, line@));
    text
}

} // verus!
