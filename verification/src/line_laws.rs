//! What makes a line of source code, a comment or blank.
use vstd::prelude::*;
use crate::javascript::{counts_marks, marked_tally, script_tokens};
use crate::model::LineCounts;
use crate::python::{comment_tokens, counted_tokens, counts_lines, hash_first, line_tally};
use crate::spans::{
    last_line, line_at, lines_rise, started_by, text_between, touched_by, touched_lines, LineSpan,
    SourceToken, TokenRange,
};
use crate::sums::{total, total_push};
use crate::text::white_space;

verus! {

proof fn lemma_started(lines: Seq<LineSpan>, offset: int, count: nat)
    requires
        lines_rise(lines),
        count <= lines.len(),
    ensures
        started_by(lines, offset, count) <= count,
        forall|line: int|
            0 <= line < count ==> ((#[trigger] lines[line]).start <= offset <==> line < started_by(
                lines,
                offset,
                count,
            )),
    decreases count,
{
    if count > 0 {
        lemma_started(lines, offset, (count - 1) as nat);
        if lines[count - 1].start <= offset && count > 1 {
            assert(lines[count - 2].start < lines[count - 1].start);
            assert(lines[count - 2].start <= offset);
        }
    }
}

proof fn lemma_line_at(lines: Seq<LineSpan>, offset: int, line: int)
    requires
        lines_rise(lines),
        0 <= line < lines.len(),
        offset >= 0,
    ensures
        lines[line].start <= offset <==> line <= line_at(lines, offset),
{
    lemma_started(lines, offset, lines.len());
    assert(lines[0].start <= offset);
}

/// Whether a token lies on a line, wholly or in part: it ends behind where the line
/// starts, and starts before the next line does.
pub open spec fn reaches(lines: Seq<LineSpan>, token: TokenRange, line: int) -> bool {
    &&& token.start < token.end
    &&& lines[line].start < token.end
    &&& line + 1 < lines.len() ==> token.start < lines[line + 1].start
}

/// The lines that tokens mark are those on which one of them lies.
pub proof fn tokens_mark_the_lines_they_reach(
    lines: Seq<LineSpan>,
    tokens: Seq<TokenRange>,
    line: int,
)
    requires
        lines_rise(lines),
        0 <= line < lines.len(),
    ensures
        touched_lines(lines, tokens)[line] <==> exists|index: int|
            0 <= index < tokens.len() && reaches(lines, #[trigger] tokens[index], line),
{
    assert forall|index: int|
        0 <= index < tokens.len() && (#[trigger] tokens[index]).start
            < tokens[index].end implies (line_at(lines, tokens[index].start as int) <= line
        <= last_line(lines, tokens[index].end as int)) == reaches(
        lines,
        tokens[index],
        line,
    ) by {
        lemma_line_at(lines, tokens[index].end - 1, line);
        lemma_started(lines, tokens[index].start as int, lines.len());
        if line + 1 < lines.len() {
            lemma_line_at(lines, tokens[index].start as int, line + 1);
        }
    }
    if touched_by(lines, tokens, line, tokens.len()) {
        let index = choose|index: int|
            0 <= index < tokens.len() && (#[trigger] tokens[index]).start < tokens[index].end
                && line_at(lines, tokens[index].start as int) <= line <= last_line(
                lines,
                tokens[index].end as int,
            );
        assert(reaches(lines, tokens[index], line));
    }
}

/// Whether a range is that of a token of some kind.
pub open spec fn is_range_of(token: SourceToken, range: TokenRange) -> bool {
    token.start == range.start && token.end == range.end
}

proof fn lemma_pushed(items: Seq<TokenRange>, last: TokenRange, item: TokenRange)
    ensures
        items.push(last).contains(item) <==> items.contains(item) || item == last,
{
    let all = items.push(last);
    if items.contains(item) {
        let at = choose|at: int| 0 <= at < items.len() && items[at] == item;
        assert(all[at] == item);
    }
    if item == last {
        assert(all[items.len() as int] == item);
    }
}

/// Every token of Python source counts but for comments, line breaks, indentation and
/// the end of the file; the comments are the tokens of that kind.
pub proof fn python_layout_does_not_count(tokens: Seq<SourceToken>, count: nat, range: TokenRange)
    requires
        count <= tokens.len(),
    ensures
        counted_tokens(tokens, count).contains(range) <==> exists|index: int|
            0 <= index < count && is_range_of(#[trigger] tokens[index], range)
                && tokens[index].kind@ != "Comment"@ && tokens[index].kind@ != "Newline"@
                && tokens[index].kind@ != "NonLogicalNewline"@ && tokens[index].kind@ != "Indent"@
                && tokens[index].kind@ != "Dedent"@ && tokens[index].kind@ != "EndOfFile"@,
        comment_tokens(tokens, count).contains(range) <==> exists|index: int|
            0 <= index < count && is_range_of(#[trigger] tokens[index], range)
                && tokens[index].kind@ == "Comment"@,
    decreases count,
{
    if count > 0 {
        python_layout_does_not_count(tokens, (count - 1) as nat, range);
        let last = TokenRange { start: tokens[count - 1].start, end: tokens[count - 1].end };
        lemma_pushed(counted_tokens(tokens, (count - 1) as nat), last, range);
        lemma_pushed(comment_tokens(tokens, (count - 1) as nat), last, range);
        assert(is_range_of(tokens[count - 1], range) <==> range == last);
    }
}

/// Every token of a script counts but for what is skipped and for the end of the file.
pub proof fn skipped_script_does_not_count(
    tokens: Seq<SourceToken>,
    count: nat,
    range: TokenRange,
)
    requires
        count <= tokens.len(),
    ensures
        script_tokens(tokens, count).contains(range) <==> exists|index: int|
            0 <= index < count && is_range_of(#[trigger] tokens[index], range)
                && tokens[index].kind@ != "Skip"@ && tokens[index].kind@ != "Eof"@,
    decreases count,
{
    if count > 0 {
        skipped_script_does_not_count(tokens, (count - 1) as nat, range);
        let last = TokenRange { start: tokens[count - 1].start, end: tokens[count - 1].end };
        lemma_pushed(script_tokens(tokens, (count - 1) as nat), last, range);
        assert(is_range_of(tokens[count - 1], range) <==> range == last);
    }
}

/// How many of the first `count` lines are so.
pub open spec fn lines_so(so: spec_fn(int) -> bool, count: nat) -> nat {
    total(
        Seq::new(
            count,
            |line: int|
                if so(line) {
                    1nat
                } else {
                    0nat
                },
        ),
    )
}

proof fn lemma_lines_so(so: spec_fn(int) -> bool, count: nat)
    ensures
        count == 0 ==> lines_so(so, count) == 0,
        count > 0 ==> lines_so(so, count) == lines_so(so, (count - 1) as nat) + if so(count - 1) {
            1nat
        } else {
            0nat
        },
{
    let one = |line: int|
        if so(line) {
            1nat
        } else {
            0nat
        };
    if count == 0 {
        assert(Seq::new(0, one) =~= Seq::<nat>::empty());
    } else {
        let fewer = Seq::new((count - 1) as nat, one);
        assert(Seq::new(count, one) =~= fewer.push(one(count - 1)));
        total_push(fewer, one(count - 1));
    }
}

proof fn lemma_marked(code: Seq<bool>, comments: Seq<bool>, count: nat)
    requires
        count <= code.len(),
    ensures
        marked_tally(code, comments, count).0 == lines_so(|line: int| code[line], count),
        marked_tally(code, comments, count).1 == lines_so(
            |line: int| !code[line] && comments[line],
            count,
        ),
    decreases count,
{
    lemma_lines_so(|line: int| code[line], count);
    lemma_lines_so(|line: int| !code[line] && comments[line], count);
    if count > 0 {
        lemma_marked(code, comments, (count - 1) as nat);
    }
}

/// A line of a script is code where a token marks it, else a comment where a comment
/// marks it, and else blank.
pub proof fn script_lines_are_told_by_their_marks(
    counts: LineCounts,
    code: Seq<bool>,
    comments: Seq<bool>,
)
    requires
        counts_marks(counts, code, comments),
    ensures
        counts.total == code.len(),
        counts.code == lines_so(|line: int| code[line], code.len()),
        counts.comments == lines_so(|line: int| !code[line] && comments[line], code.len()),
        counts.blank == lines_so(|line: int| !code[line] && !comments[line], code.len()),
{
    lemma_marked(code, comments, code.len());
    lemma_three_ways(
        |line: int| code[line],
        |line: int| !code[line] && comments[line],
        |line: int| !code[line] && !comments[line],
        code.len(),
    );
}

proof fn lemma_three_ways(
    first: spec_fn(int) -> bool,
    second: spec_fn(int) -> bool,
    third: spec_fn(int) -> bool,
    count: nat,
)
    requires
        forall|line: int|
            0 <= line < count ==> {
                ||| #[trigger] first(line) && !second(line) && !third(line)
                ||| !first(line) && second(line) && !third(line)
                ||| !first(line) && !second(line) && third(line)
            },
    ensures
        lines_so(first, count) + lines_so(second, count) + lines_so(third, count) == count,
    decreases count,
{
    lemma_lines_so(first, count);
    lemma_lines_so(second, count);
    lemma_lines_so(third, count);
    if count > 0 {
        lemma_three_ways(first, second, third, (count - 1) as nat);
        assert(first(count - 1) || !first(count - 1));
    }
}

/// Whether a line of Python source starts with a hash sign, behind white space.
pub open spec fn starts_with_hash(text: Seq<char>) -> bool {
    exists|place: int|
        0 <= place < text.len() && #[trigger] text[place] == '#' && forall|before: int|
            0 <= before < place ==> white_space(#[trigger] text[before])
}

proof fn lemma_hash(text: Seq<char>, index: int)
    requires
        0 <= index <= text.len(),
        forall|before: int| 0 <= before < index ==> white_space(#[trigger] text[before]),
    ensures
        hash_first(text, index) <==> starts_with_hash(text),
    decreases text.len() - index,
{
    assert(!white_space('#'));
    if index < text.len() && white_space(text[index]) {
        lemma_hash(text, index + 1);
    } else if starts_with_hash(text) {
        let place = choose|place: int|
            0 <= place < text.len() && #[trigger] text[place] == '#' && forall|before: int|
                0 <= before < place ==> white_space(#[trigger] text[before]);
        if place < index {
            assert(white_space(text[place]));
        } else if place > index {
            assert(white_space(text[index]));
        }
    }
}

/// Whether a line of Python source is a comment where it is no code.
pub open spec fn comments_on(
    source: Seq<char>,
    lines: Seq<LineSpan>,
    comments: Seq<bool>,
    line: int,
) -> bool {
    comments[line] || starts_with_hash(
        text_between(source, lines[line].start as int, lines[line].end as int),
    )
}

proof fn lemma_tally(
    source: Seq<char>,
    lines: Seq<LineSpan>,
    code: Seq<bool>,
    comments: Seq<bool>,
    count: nat,
)
    requires
        count <= lines.len(),
    ensures
        line_tally(source, lines, code, comments, count).0 == lines_so(
            |line: int| code[line],
            count,
        ),
        line_tally(source, lines, code, comments, count).1 == lines_so(
            |line: int| !code[line] && comments_on(source, lines, comments, line),
            count,
        ),
    decreases count,
{
    lemma_lines_so(|line: int| code[line], count);
    lemma_lines_so(|line: int| !code[line] && comments_on(source, lines, comments, line), count);
    if count > 0 {
        lemma_tally(source, lines, code, comments, (count - 1) as nat);
        let text = text_between(
            source,
            lines[count - 1].start as int,
            lines[count - 1].end as int,
        );
        lemma_hash(text, 0);
    }
}

/// A line of Python source is code where a token marks it, else a comment where a
/// comment marks it or it starts with a hash sign, and else blank.
pub proof fn python_lines_are_told_by_their_marks(
    counts: LineCounts,
    source: Seq<char>,
    lines: Seq<LineSpan>,
    code: Seq<bool>,
    comments: Seq<bool>,
)
    requires
        counts_lines(counts, source, lines, code, comments),
    ensures
        counts.total == lines.len(),
        counts.code == lines_so(|line: int| code[line], lines.len()),
        counts.comments == lines_so(
            |line: int| !code[line] && comments_on(source, lines, comments, line),
            lines.len(),
        ),
        counts.blank == lines_so(
            |line: int| !code[line] && !comments_on(source, lines, comments, line),
            lines.len(),
        ),
{
    lemma_tally(source, lines, code, comments, lines.len());
    lemma_three_ways(
        |line: int| code[line],
        |line: int| !code[line] && comments_on(source, lines, comments, line),
        |line: int| !code[line] && !comments_on(source, lines, comments, line),
        lines.len(),
    );
}

}
