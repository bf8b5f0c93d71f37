//! Text processing: splitting a loaded blob into lines and joining a page of
//! tokens with commas.

use vstd::prelude::*;

verus! {

/// The views of a sequence of strings.
pub open spec fn views_of(parts: Seq<String>) -> Seq<Seq<char>> {
    parts.map_values(|t: String| t@)
}

/// The comma-separated join of a sequence of strings.
pub open spec fn join_csv(parts: Seq<Seq<char>>) -> Seq<char>
    decreases parts.len(),
{
    if parts.len() == 0 {
        Seq::empty()
    } else if parts.len() == 1 {
        parts[0]
    } else {
        parts[0] + seq![','] + join_csv(parts.drop_first())
    }
}

/// Joining one more part appends one comma and the part.
proof fn lemma_join_csv_push(parts: Seq<Seq<char>>, x: Seq<char>)
    requires
        parts.len() >= 1,
    ensures
        join_csv(parts.push(x)) == join_csv(parts) + seq![','] + x,
    decreases parts.len(),
{
    if parts.len() == 1 {
        assert(parts.push(x).drop_first() =~= seq![x]);
        assert(parts.push(x)[0] == parts[0]);
        assert(join_csv(seq![x]) == x);
        assert(join_csv(parts.push(x)) == parts[0] + seq![','] + x);
    } else {
        assert(parts.push(x).drop_first() =~= parts.drop_first().push(x));
        lemma_join_csv_push(parts.drop_first(), x);
        assert(parts[0] + seq![','] + (join_csv(parts.drop_first()) + seq![','] + x) =~= (
        parts[0] + seq![','] + join_csv(parts.drop_first())) + seq![','] + x);
    }
}

/// Join strings with one comma between each pair, as `[String]::join(",")`
/// does.
pub fn join_with_commas(parts: &Vec<String>) -> (r: String)
    ensures
        r@ == join_csv(views_of(parts@)),
{
    let mut r = String::new();
    let mut i: usize = 0;
    while i < parts.len()
        invariant
            i <= parts@.len(),
            r@ == join_csv(views_of(parts@.take(i as int))),
        decreases parts@.len() - i,
    {
        if i > 0 {
            proof {
                reveal_strlit(",");
            }
            r.append(",");
        }
        let part: &String = &parts[i];
        r.append(part.as_str());
        proof {
            assert(views_of(parts@.take(i + 1)) =~= views_of(parts@.take(i as int)).push(
                parts@[i as int]@,
            ));
            if i > 0 {
                lemma_join_csv_push(views_of(parts@.take(i as int)), parts@[i as int]@);
            } else {
                assert(Seq::<char>::empty() + parts@[0]@ =~= parts@[0]@);
            }
        }
        i += 1;
    }
    proof {
        assert(parts@.take(parts@.len() as int) =~= parts@);
    }
    r
}

/// Index of the first newline in `s`, or `s.len()` if there is none.
pub open spec fn find_nl(s: Seq<char>) -> int
    decreases s.len(),
{
    if s.len() == 0 {
        0
    } else if s[0] == '\n' {
        0
    } else {
        1 + find_nl(s.drop_first())
    }
}

/// `find_nl` points at the first newline: nothing before it is one, and it is
/// one itself unless the text holds none.
proof fn lemma_find_nl(s: Seq<char>)
    ensures
        0 <= find_nl(s) <= s.len(),
        forall|j: int| 0 <= j < find_nl(s) ==> s[j] != '\n',
        find_nl(s) < s.len() ==> s[find_nl(s)] == '\n',
    decreases s.len(),
{
    if s.len() > 0 && s[0] != '\n' {
        lemma_find_nl(s.drop_first());
        assert forall|j: int| 0 <= j < find_nl(s) implies s[j] != '\n' by {
            if j > 0 {
                assert(s.drop_first()[j - 1] == s[j]);
            }
        }
        if find_nl(s) < s.len() {
            assert(s.drop_first()[find_nl(s) - 1] == s[find_nl(s)]);
        }
    }
}

/// A line as `str::lines` yields it: one trailing `'\r'` removed.
pub open spec fn strip_cr(l: Seq<char>) -> Seq<char> {
    if l.len() > 0 && l.last() == '\r' {
        l.drop_last()
    } else {
        l
    }
}

/// The lines of a text, as `str::lines` yields them: split at `'\n'`, one
/// `'\r'` before each `'\n'` removed, and a trailing line ending producing no
/// final empty line.
pub open spec fn spec_lines(s: Seq<char>) -> Seq<Seq<char>>
    decreases s.len(),
    via spec_lines_decreases
{
    if s.len() == 0 {
        Seq::empty()
    } else {
        let i = find_nl(s);
        if i == s.len() {
            seq![s]
        } else {
            seq![strip_cr(s.take(i))] + spec_lines(s.skip(i + 1))
        }
    }
}

#[via_fn]
proof fn spec_lines_decreases(s: Seq<char>) {
    lemma_find_nl(s);
}

/// Split a text into its lines, as `str::lines` does: lines end at `'\n'` or
/// `"\r\n"`, and a trailing line ending yields no final empty line. Loading a
/// token file turns each line into one token, in order.
pub fn load_numbers(content: &str) -> (r: Vec<String>)
    ensures
        views_of(r@) == spec_lines(content@),
{
    let len = content.unicode_len();
    let mut r: Vec<String> = Vec::new();
    let mut pos: usize = 0;
    proof {
        assert(content@.skip(0) =~= content@);
        assert(views_of(r@) =~~= Seq::<Seq<char>>::empty());
        assert(Seq::<Seq<char>>::empty() + spec_lines(content@) =~~= spec_lines(content@));
    }
    while pos < len
        invariant
            len == content@.len(),
            pos <= len,
            spec_lines(content@) == views_of(r@) + spec_lines(content@.skip(pos as int)),
        decreases len - pos,
    {
        let ghost s = content@;
        let ghost tail = s.skip(pos as int);
        let mut end: usize = pos;
        while end < len && content.get_char(end) != '\n'
            invariant
                len == content@.len(),
                pos <= end <= len,
                forall|j: int| pos <= j < end ==> content@[j] != '\n',
            decreases len - end,
        {
            end += 1;
        }
        proof {
            lemma_find_nl(tail);
            assert forall|j: int| 0 <= j < end - pos implies tail[j] != '\n' by {
                assert(tail[j] == s[pos + j]);
            }
            if find_nl(tail) < end - pos {
                assert(tail[find_nl(tail)] != '\n');
                assert(false);
            }
            if find_nl(tail) > end - pos {
                assert(end < len);
                assert(tail[end - pos] == s[end as int]);
                assert(false);
            }
            assert(find_nl(tail) == end - pos);
        }
        let ghost r0 = r@;
        if end >= len {
            let line = content.substring_char(pos, len);
            r.push(String::from_str(line));
            proof {
                assert(line@ =~= tail);
                assert(spec_lines(tail) =~~= seq![tail]);
                assert(views_of(r@) =~~= views_of(r0).push(tail));
                assert(views_of(r0) + seq![tail] =~~= views_of(r0).push(tail));
                assert(s.skip(len as int) =~= Seq::<char>::empty());
                assert(views_of(r@) + spec_lines(Seq::<char>::empty()) =~~= views_of(r@));
            }
            pos = len;
        } else {
            let line_end = if end > pos && content.get_char(end - 1) == '\r' {
                end - 1
            } else {
                end
            };
            let line = content.substring_char(pos, line_end);
            r.push(String::from_str(line));
            proof {
                let k = end - pos;
                assert(tail.take(k) =~= s.subrange(pos as int, end as int));
                if end > pos && s[end - 1] == '\r' {
                    assert(tail.take(k).last() == s[end - 1]);
                    assert(tail.take(k).drop_last() =~= s.subrange(pos as int, end - 1));
                }
                assert(line@ == strip_cr(tail.take(k)));
                assert(tail.skip(k + 1) =~= s.skip(end + 1));
                assert(spec_lines(tail) == seq![strip_cr(tail.take(k))] + spec_lines(
                    tail.skip(k + 1),
                ));
                assert(views_of(r@) =~~= views_of(r0).push(line@));
                assert(views_of(r0) + (seq![line@] + spec_lines(s.skip(end + 1))) =~~= views_of(
                    r0,
                ).push(line@) + spec_lines(s.skip(end + 1)));
            }
            pos = end + 1;
        }
    }
    proof {
        assert(content@.skip(pos as int) =~= Seq::<char>::empty());
        assert(views_of(r@) + spec_lines(Seq::<char>::empty()) =~~= views_of(r@));
    }
    r
}

/// The message a text yields: its first line, or a fixed fallback when the
/// text has no lines at all.
pub open spec fn spec_message(s: Seq<char>) -> Seq<char> {
    if spec_lines(s).len() == 0 {
        "No message found"@
    } else {
        spec_lines(s)[0]
    }
}

/// First line of a loaded message text, or the fallback when it is empty.
pub fn load_message(content: &str) -> (r: String)
    ensures
        r@ == spec_message(content@),
{
    let lines = load_numbers(content);
    if lines.len() == 0 {
        String::from_str("No message found")
    } else {
        let first: &String = &lines[0];
        first.clone()
    }
}

} // verus!
