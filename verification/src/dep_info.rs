//! Reading the dependency-info files that the compiler writes.
//!
//! Such a file holds lines of the form `target: dep dep ...`. The
//! dependencies of a line are separated by white space; one that ends in a
//! backslash goes on, after a blank, with the next one of its line, which is
//! how a path with a blank in it is written. Lines without `: ` say
//! nothing.

use crate::text::{chars_of, string_from};
use vstd::prelude::*;

verus! {

/// Why the text is no dependency info.
#[derive(Debug, Clone, Copy, PartialEq, Eq, Structural)]
pub enum DepInfoError {
    /// The last dependency of the line with this index ends in a backslash.
    DanglingContinuation { line: usize },
}

/// One line of dependency info: the target and its dependencies.
pub struct DepInfoLine {
    pub target: Seq<char>,
    pub deps: Seq<Seq<char>>,
}

/// Whether the character is white space.
pub open spec fn is_space(c: char) -> bool {
    let u = c as u32;
    ||| 0x09 <= u <= 0x0d
    ||| u == 0x20
    ||| u == 0x85
    ||| u == 0xa0
    ||| u == 0x1680
    ||| 0x2000 <= u <= 0x200a
    ||| u == 0x2028
    ||| u == 0x2029
    ||| u == 0x202f
    ||| u == 0x205f
    ||| u == 0x3000
}

/// The lines that are complete within the first `n` characters, and the
/// beginning of the line that is not.
pub open spec fn lines_state(s: Seq<char>, n: int) -> (Seq<Seq<char>>, Seq<char>)
    decreases n,
{
    if n <= 0 {
        (Seq::empty(), Seq::empty())
    } else {
        let (done, cur) = lines_state(s, n - 1);
        if s[n - 1] == '\n' {
            (done.push(cur), Seq::empty())
        } else {
            (done, cur.push(s[n - 1]))
        }
    }
}

/// The lines of a text: what stands between its line feeds, and what
/// follows the last one unless that is empty.
pub open spec fn lines_of(s: Seq<char>) -> Seq<Seq<char>> {
    let (done, cur) = lines_state(s, s.len() as int);
    if cur.len() > 0 {
        done.push(cur)
    } else {
        done
    }
}

/// The words that are complete within the first `n` characters, and the
/// beginning of the word that is not.
pub open spec fn words_state(s: Seq<char>, n: int) -> (Seq<Seq<char>>, Seq<char>)
    decreases n,
{
    if n <= 0 {
        (Seq::empty(), Seq::empty())
    } else {
        let (done, cur) = words_state(s, n - 1);
        if is_space(s[n - 1]) {
            if cur.len() > 0 {
                (done.push(cur), Seq::empty())
            } else {
                (done, cur)
            }
        } else {
            (done, cur.push(s[n - 1]))
        }
    }
}

/// The words of a text: its longest runs of characters without white
/// space.
pub open spec fn words_of(s: Seq<char>) -> Seq<Seq<char>> {
    let (done, cur) = words_state(s, s.len() as int);
    if cur.len() > 0 {
        done.push(cur)
    } else {
        done
    }
}

/// The first place at or after `i` where a colon is followed by a blank.
pub open spec fn separator_from(line: Seq<char>, i: int) -> Option<int>
    decreases line.len() - i,
{
    if i < 0 || i + 1 >= line.len() {
        None
    } else if line[i] == ':' && line[i + 1] == ' ' {
        Some(i)
    } else {
        separator_from(line, i + 1)
    }
}

/// The dependencies that the first `n` words give, and the beginning of
/// the dependency that goes on.
pub open spec fn joined_state(words: Seq<Seq<char>>, n: int) -> (Seq<Seq<char>>, Option<Seq<char>>)
    decreases n,
{
    if n <= 0 {
        (Seq::empty(), None)
    } else {
        let (done, open) = joined_state(words, n - 1);
        let file = match open {
            Some(begun) => begun.push(' ') + words[n - 1],
            None => words[n - 1],
        };
        if file.len() > 0 && file.last() == '\\' {
            (done, Some(file.drop_last()))
        } else {
            (done.push(file), None)
        }
    }
}

/// The dependencies that the words give; `None` where the last word ends
/// in a backslash.
pub open spec fn joined(words: Seq<Seq<char>>) -> Option<Seq<Seq<char>>> {
    let (done, open) = joined_state(words, words.len() as int);
    if open is Some {
        None
    } else {
        Some(done)
    }
}

/// What the first `n` lines say: the targets with their dependencies, or
/// the first line among them that ends in a backslash.
pub open spec fn parsed_lines(lines: Seq<Seq<char>>, n: int) -> Result<Seq<DepInfoLine>, DepInfoError>
    decreases n,
{
    if n <= 0 {
        Ok(Seq::empty())
    } else {
        match parsed_lines(lines, n - 1) {
            Err(e) => Err(e),
            Ok(before) => {
                let line = lines[n - 1];
                match separator_from(line, 0) {
                    None => Ok(before),
                    Some(pos) => match joined(words_of(line.subrange(pos + 2, line.len() as int))) {
                        None => Err(DepInfoError::DanglingContinuation { line: (n - 1) as usize }),
                        Some(deps) => Ok(
                            before.push(DepInfoLine { target: line.subrange(0, pos), deps }),
                        ),
                    },
                }
            },
        }
    }
}

/// A line that is refused is refused whatever follows it.
proof fn lemma_error_stays(lines: Seq<Seq<char>>, m: int, n: int)
    requires
        0 <= m <= n,
        parsed_lines(lines, m) is Err,
    ensures
        parsed_lines(lines, n) == parsed_lines(lines, m),
    decreases n,
{
    if n > m {
        lemma_error_stays(lines, m, n - 1);
    }
}

/// What a text of dependency info says.
pub open spec fn dep_info(text: Seq<char>) -> Result<Seq<DepInfoLine>, DepInfoError> {
    parsed_lines(lines_of(text), lines_of(text).len() as int)
}

/// What a list of lists of characters holds.
pub open spec fn views(v: Seq<Vec<char>>) -> Seq<Seq<char>> {
    Seq::new(v.len(), |i: int| v[i]@)
}

/// What a list of strings holds.
pub open spec fn strings_view(v: Seq<String>) -> Seq<Seq<char>> {
    Seq::new(v.len(), |i: int| v[i]@)
}

/// What the parsed lines hold.
pub open spec fn parsed_view(v: Seq<(String, Vec<String>)>) -> Seq<DepInfoLine> {
    Seq::new(v.len(), |i: int| DepInfoLine { target: v[i].0@, deps: strings_view(v[i].1@) })
}

/// Whether the character is white space.
pub fn is_whitespace(c: char) -> (r: bool)
    ensures
        r == is_space(c),
{
    let u = c as u32;
    (0x09 <= u && u <= 0x0d) || u == 0x20 || u == 0x85 || u == 0xa0 || u == 0x1680 || (0x2000 <= u
        && u <= 0x200a) || u == 0x2028 || u == 0x2029 || u == 0x202f || u == 0x205f || u == 0x3000
}

/// The lines of a text.
pub fn split_lines(text: &Vec<char>) -> (r: Vec<Vec<char>>)
    ensures
        views(r@) == lines_of(text@),
{
    let mut done: Vec<Vec<char>> = Vec::new();
    let mut cur: Vec<char> = Vec::new();
    let mut i: usize = 0;
    assert(views(done@) =~= Seq::<Seq<char>>::empty());
    while i < text.len()
        invariant
            i <= text.len(),
            (views(done@), cur@) == lines_state(text@, i as int),
        decreases text.len() - i,
    {
        let ghost before = done@;
        let c = text[i];
        if c == '\n' {
            done.push(cur);
            assert(views(done@) =~= views(before).push(cur@));
            cur = Vec::new();
        } else {
            cur.push(c);
        }
        i = i + 1;
    }
    if cur.len() > 0 {
        let ghost before = done@;
        done.push(cur);
        assert(views(done@) =~= views(before).push(cur@));
    }
    done
}

/// The words of the text that begins with the character at `from`.
pub fn split_whitespace(text: &Vec<char>, from: usize) -> (r: Vec<Vec<char>>)
    requires
        from <= text.len(),
    ensures
        views(r@) == words_of(text@.subrange(from as int, text.len() as int)),
{
    let ghost s = text@.subrange(from as int, text.len() as int);
    let mut done: Vec<Vec<char>> = Vec::new();
    let mut cur: Vec<char> = Vec::new();
    let mut i: usize = from;
    assert(views(done@) =~= Seq::<Seq<char>>::empty());
    while i < text.len()
        invariant
            from <= i <= text.len(),
            s == text@.subrange(from as int, text.len() as int),
            (views(done@), cur@) == words_state(s, i - from),
        decreases text.len() - i,
    {
        let ghost before = done@;
        let c = text[i];
        assert(s[i - from] == c);
        if is_whitespace(c) {
            if cur.len() > 0 {
                done.push(cur);
                assert(views(done@) =~= views(before).push(cur@));
                cur = Vec::new();
            }
        } else {
            cur.push(c);
        }
        i = i + 1;
    }
    if cur.len() > 0 {
        let ghost before = done@;
        done.push(cur);
        assert(views(done@) =~= views(before).push(cur@));
    }
    done
}

/// The first place in the line where a colon is followed by a blank.
pub fn find_separator(line: &Vec<char>) -> (r: Option<usize>)
    ensures
        match r {
            Some(pos) => separator_from(line@, 0) == Some(pos as int) && pos + 2 <= line.len(),
            None => separator_from(line@, 0) is None,
        },
{
    let mut i: usize = 0;
    while i < line.len() && i + 1 < line.len()
        invariant
            i <= line.len(),
            separator_from(line@, 0) == separator_from(line@, i as int),
        decreases line.len() - i,
    {
        if line[i] == ':' && line[i + 1] == ' ' {
            return Some(i);
        }
        i = i + 1;
    }
    None
}

/// Joins each word that ends in a backslash with the word that follows it:
/// the backslash becomes a blank. `None` where the last word ends in a
/// backslash.
pub fn join_continued(words: &Vec<Vec<char>>) -> (r: Option<Vec<Vec<char>>>)
    ensures
        match r {
            Some(files) => joined(views(words@)) == Some(views(files@)),
            None => joined(views(words@)) is None,
        },
{
    let ghost w = views(words@);
    let mut done: Vec<Vec<char>> = Vec::new();
    let mut begun: Vec<char> = Vec::new();
    let mut open = false;
    let mut i: usize = 0;
    assert(views(done@) =~= Seq::<Seq<char>>::empty());
    while i < words.len()
        invariant
            i <= words.len(),
            w == views(words@),
            joined_state(w, i as int) == (
                views(done@),
                if open {
                    Some(begun@)
                } else {
                    None
                },
            ),
        decreases words.len() - i,
    {
        let ghost before = done@;
        let ghost begun0 = begun@;
        let word = &words[i];
        assert(w[i as int] == word@);
        let mut file: Vec<char> = Vec::new();
        if open {
            file = begun;
            file.push(' ');
        }
        let ghost head = file@;
        let mut k: usize = 0;
        while k < word.len()
            invariant
                k <= word.len(),
                file@ == head + word@.take(k as int),
            decreases word.len() - k,
        {
            file.push(word[k]);
            k = k + 1;
            assert(word@.take(k as int) =~= word@.take(k - 1).push(word@[k - 1]));
        }
        assert(word@.take(word.len() as int) =~= word@);
        assert(file@ =~= (if open {
            begun0.push(' ') + word@
        } else {
            word@
        }));
        let n = file.len();
        if n > 0 && file[n - 1] == '\\' {
            file.pop();
            begun = file;
            open = true;
        } else {
            done.push(file);
            assert(views(done@) =~= views(before).push(file@));
            begun = Vec::new();
            open = false;
        }
        i = i + 1;
    }
    if open {
        None
    } else {
        Some(done)
    }
}

/// The targets of a dependency-info text, each with its dependencies.
///
/// A line says something where a colon is followed by a blank: the target
/// stands before the first such place, the dependencies after it. The
/// text is refused where the last dependency of a line ends in a
/// backslash.
pub fn parse_rustc_dep_info(contents: &str) -> (r: Result<Vec<(String, Vec<String>)>, DepInfoError>)
    ensures
        match r {
            Ok(parsed) => dep_info(contents@) == Ok::<Seq<DepInfoLine>, DepInfoError>(
                parsed_view(parsed@),
            ),
            Err(e) => dep_info(contents@) == Err::<Seq<DepInfoLine>, DepInfoError>(e),
        },
{
    let text = chars_of(contents);
    let lines = split_lines(&text);
    let ghost ls = lines_of(contents@);
    let mut out: Vec<(String, Vec<String>)> = Vec::new();
    let mut i: usize = 0;
    assert(parsed_view(out@) =~= Seq::<DepInfoLine>::empty());
    while i < lines.len()
        invariant
            i <= lines.len(),
            ls == views(lines@),
            ls == lines_of(contents@),
            parsed_lines(ls, i as int) == Ok::<Seq<DepInfoLine>, DepInfoError>(parsed_view(out@)),
        decreases lines.len() - i,
    {
        let line = &lines[i];
        assert(ls[i as int] == line@);
        match find_separator(line) {
            None => {},
            Some(pos) => {
                let words = split_whitespace(line, pos + 2);
                match join_continued(&words) {
                    None => {
                        proof {
                            assert(parsed_lines(ls, i + 1) == Err::<Seq<DepInfoLine>, DepInfoError>(
                                DepInfoError::DanglingContinuation { line: i },
                            ));
                            lemma_error_stays(ls, i + 1, ls.len() as int);
                        }
                        return Err(DepInfoError::DanglingContinuation { line: i });
                    },
                    Some(files) => {
                        let target = string_from(line, 0, pos);
                        let mut deps: Vec<String> = Vec::new();
                        let mut k: usize = 0;
                        while k < files.len()
                            invariant
                                k <= files.len(),
                                deps@.len() == k,
                                forall|m: int| 0 <= m < k ==> (#[trigger] deps@[m])@ == files@[m]@,
                            decreases files.len() - k,
                        {
                            let file = &files[k];
                            let dep = string_from(file, 0, file.len());
                            assert(file@.subrange(0, file.len() as int) =~= file@);
                            deps.push(dep);
                            k = k + 1;
                        }
                        let ghost before = out@;
                        assert(strings_view(deps@) =~= views(files@));
                        out.push((target, deps));
                        assert(parsed_view(out@) =~= parsed_view(before).push(
                            DepInfoLine { target: target@, deps: strings_view(deps@) },
                        ));
                    },
                }
            },
        }
        i = i + 1;
    }
    Ok(out)
}

} // verus!
