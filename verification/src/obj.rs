//! The statement structure of Wavefront OBJ text: comments, continued
//! lines, whitespace-separated words, and the vertex index of a face
//! corner.

use vstd::prelude::*;
use vstd::std_specs::convert::FromSpecImpl;
use crate::text::chars_of;

verus! {

#[verifier::external_type_specification]
#[verifier::external_body]
pub struct ExIoError(std::io::Error);

#[verifier::external_type_specification]
#[verifier::external_body]
pub struct ExParseFloatError(std::num::ParseFloatError);

#[verifier::external_type_specification]
#[verifier::external_body]
pub struct ExParseIntError(std::num::ParseIntError);

/// Why OBJ text could not be read.
#[derive(Debug)]
pub enum ObjError {
    Io(std::io::Error),
    ParseFloat(std::num::ParseFloatError),
    ParseInt(std::num::ParseIntError),
    WrongNumberOfArguments,
}

impl From<std::io::Error> for ObjError {
    fn from(e: std::io::Error) -> (r: ObjError) {
        ObjError::Io(e)
    }
}

impl FromSpecImpl<std::io::Error> for ObjError {
    open spec fn obeys_from_spec() -> bool {
        true
    }

    open spec fn from_spec(e: std::io::Error) -> ObjError {
        ObjError::Io(e)
    }
}

impl From<std::num::ParseFloatError> for ObjError {
    fn from(e: std::num::ParseFloatError) -> (r: ObjError) {
        ObjError::ParseFloat(e)
    }
}

impl FromSpecImpl<std::num::ParseFloatError> for ObjError {
    open spec fn obeys_from_spec() -> bool {
        true
    }

    open spec fn from_spec(e: std::num::ParseFloatError) -> ObjError {
        ObjError::ParseFloat(e)
    }
}

impl From<std::num::ParseIntError> for ObjError {
    fn from(e: std::num::ParseIntError) -> (r: ObjError) {
        ObjError::ParseInt(e)
    }
}

impl FromSpecImpl<std::num::ParseIntError> for ObjError {
    open spec fn obeys_from_spec() -> bool {
        true
    }

    open spec fn from_spec(e: std::num::ParseIntError) -> ObjError {
        ObjError::ParseInt(e)
    }
}

/// Whether `c` has the Unicode White_Space property, the property that
/// `char::is_whitespace` tests: the ASCII tab, line feed, vertical tab,
/// form feed, carriage return and space, the next line and no-break space
/// controls, and the Unicode space and line and paragraph separators.
pub open spec fn white_space(c: char) -> bool {
    let n = c as u32;
    ||| 0x09 <= n <= 0x0D
    ||| n == 0x20
    ||| n == 0x85
    ||| n == 0xA0
    ||| n == 0x1680
    ||| 0x2000 <= n <= 0x200A
    ||| n == 0x2028
    ||| n == 0x2029
    ||| n == 0x202F
    ||| n == 0x205F
    ||| n == 0x3000
}

/// Whether `c` is white space (see `white_space`).
pub fn is_white_space(c: char) -> (r: bool)
    ensures
        r == white_space(c),
{
    let n = c as u32;
    (0x09 <= n && n <= 0x0D) || n == 0x20 || n == 0x85 || n == 0xA0 || n == 0x1680
        || (0x2000 <= n && n <= 0x200A) || n == 0x2028 || n == 0x2029 || n == 0x202F
        || n == 0x205F || n == 0x3000
}

/// The text of a line before its first `#`: the comment is dropped.
pub open spec fn before_comment(line: Seq<char>) -> Seq<char>
    decreases line.len(),
{
    if line.len() == 0 {
        line
    } else if line[0] == '#' {
        Seq::empty()
    } else {
        seq![line[0]] + before_comment(line.drop_first())
    }
}

/// The words of `s` that follow the word begun with `current`: the
/// maximal runs of characters that are not white space.
pub open spec fn words_after(s: Seq<char>, current: Seq<char>) -> Seq<Seq<char>>
    decreases s.len(),
{
    if s.len() == 0 {
        if current.len() > 0 { seq![current] } else { Seq::empty() }
    } else if white_space(s[0]) {
        (if current.len() > 0 { seq![current] } else { Seq::empty() }) + words_after(s.drop_first(), Seq::empty())
    } else {
        words_after(s.drop_first(), current.push(s[0]))
    }
}

/// The words of `s`, as `str::split_whitespace` gives them.
pub open spec fn words(s: Seq<char>) -> Seq<Seq<char>> {
    words_after(s, Seq::empty())
}

/// A line, without its comment, ends in a backslash and so continues on the
/// next line.
pub open spec fn continues(line: Seq<char>) -> bool {
    let c = before_comment(line);
    c.len() > 0 && c.last() == '\\'
}

/// The text gathered from the lines of a statement so far, once `line` is
/// added: a continued line adds its text without the backslash and a space.
pub open spec fn gathered(pending: Seq<char>, line: Seq<char>) -> Seq<char> {
    let c = before_comment(line);
    if continues(line) {
        pending + c.drop_last().push(' ')
    } else {
        pending + c
    }
}

/// The statement a complete text stands for: its first word, the keyword,
/// and the words that follow it, the arguments; none for a blank text.
pub open spec fn statement_of(text: Seq<char>) -> Option<(Seq<char>, Seq<Seq<char>>)> {
    let w = words(text);
    if w.len() == 0 {
        None
    } else {
        Some((w[0], w.drop_first()))
    }
}

/// Gathers the lines of OBJ text into statements, one line at a time.
pub struct ObjLines {
    pending: Vec<char>,
}

impl ObjLines {
    /// The text gathered from continued lines that still waits for the rest
    /// of its statement.
    pub closed spec fn pending(&self) -> Seq<char> {
        self.pending@
    }

    /// No text is waiting.
    pub fn new() -> (r: ObjLines)
        ensures
            r.pending() == Seq::<char>::empty(),
    {
        ObjLines { pending: Vec::new() }
    }

    /// Takes the next line of the text. A line that ends in a backslash
    /// (after its comment is dropped) is kept for the next one; any other
    /// line completes a statement, which is returned unless it is blank.
    pub fn push_line(&mut self, line: &str) -> (r: Option<(Vec<char>, Vec<Vec<char>>)>)
        ensures
            continues(line@) ==> {
                &&& r is None
                &&& final(self).pending() == gathered(old(self).pending(), line@)
            },
            !continues(line@) ==> {
                &&& final(self).pending() == Seq::<char>::empty()
                &&& match statement_of(gathered(old(self).pending(), line@)) {
                    Some((keyword, args)) => r matches Some((k, a)) && k@ == keyword
                        && a@.len() == args.len()
                        && forall|i: int| 0 <= i < args.len() ==> #[trigger] a@[i]@ == args[i],
                    None => r is None,
                }
            },
    {
        let chars = chars_of(line);
        let content = Self::strip_comment(&chars);
        let n = content.len();
        if n > 0 && content[n - 1] == '\\' {
            let mut i: usize = 0;
            let ghost start = self.pending@;
            while i < n - 1
                invariant
                    i <= n - 1,
                    n == content@.len(),
                    self.pending@ == start + content@.take(i as int),
                decreases n - 1 - i,
            {
                self.pending.push(content[i]);
                proof {
                    assert(content@.take(i + 1) =~= content@.take(i as int).push(content@[i as int]));
                }
                i = i + 1;
            }
            self.pending.push(' ');
            proof {
                assert(content@.take(n - 1) =~= content@.drop_last());
            }
            return None;
        }
        let mut i: usize = 0;
        let ghost start = self.pending@;
        while i < n
            invariant
                i <= n,
                n == content@.len(),
                self.pending@ == start + content@.take(i as int),
            decreases n - i,
        {
            self.pending.push(content[i]);
            proof {
                assert(content@.take(i + 1) =~= content@.take(i as int).push(content@[i as int]));
            }
            i = i + 1;
        }
        proof {
            assert(content@.take(n as int) =~= content@);
        }
        let words = Self::split_words(&self.pending);
        self.pending = Vec::new();
        if words.len() == 0 {
            return None;
        }
        let mut args: Vec<Vec<char>> = Vec::new();
        let mut j: usize = 1;
        while j < words.len()
            invariant
                1 <= j <= words@.len(),
                args@.len() == j - 1,
                forall|k: int| 0 <= k < j - 1 ==> #[trigger] args@[k]@ == words@[k + 1]@,
            decreases words@.len() - j,
        {
            let w = words[j].clone();
            proof {
                assert(w@ =~= words@[j as int]@);
            }
            args.push(w);
            j = j + 1;
        }
        let keyword = words[0].clone();
        proof {
            assert(keyword@ =~= words@[0]@);
        }
        Some((keyword, args))
    }

    /// The characters of `line` before its first `#`.
    fn strip_comment(line: &Vec<char>) -> (r: Vec<char>)
        ensures
            r@ == before_comment(line@),
    {
        let mut r: Vec<char> = Vec::new();
        let mut i: usize = 0;
        while i < line.len()
            invariant
                i <= line@.len(),
                forall|k: int| 0 <= k < i ==> line@[k] != '#',
                r@ == line@.take(i as int),
            decreases line@.len() - i,
        {
            if line[i] == '#' {
                proof {
                    lemma_before_comment_stops(line@, i as int);
                }
                return r;
            }
            r.push(line[i]);
            proof {
                assert(line@.take(i + 1) =~= line@.take(i as int).push(line@[i as int]));
            }
            i = i + 1;
        }
        proof {
            assert(line@.take(line@.len() as int) =~= line@);
            lemma_before_comment_none(line@);
        }
        r
    }

    /// The words of `s`.
    fn split_words(s: &Vec<char>) -> (r: Vec<Vec<char>>)
        ensures
            r@.len() == words(s@).len(),
            forall|k: int| 0 <= k < r@.len() ==> #[trigger] r@[k]@ == words(s@)[k],
    {
        let mut out: Vec<Vec<char>> = Vec::new();
        let ghost out_view: Seq<Seq<char>> = Seq::empty();
        let mut current: Vec<char> = Vec::new();
        let mut i: usize = 0;
        proof {
            assert(s@.skip(0) =~= s@);
            assert(Seq::<Seq<char>>::empty() + words(s@) =~= words(s@));
            assert(current@ =~= Seq::<char>::empty());
        }
        while i < s.len()
            invariant
                i <= s@.len(),
                out@.len() == out_view.len(),
                forall|k: int| 0 <= k < out@.len() ==> #[trigger] out@[k]@ == out_view[k],
                out_view + words_after(s@.skip(i as int), current@) == words(s@),
            decreases s@.len() - i,
        {
            let c = s[i];
            proof {
                assert(s@.skip(i as int).drop_first() =~= s@.skip(i + 1));
                assert(s@.skip(i as int)[0] == c);
            }
            if is_white_space(c) {
                if current.len() > 0 {
                    proof {
                        assert(out_view.push(current@) + words_after(s@.skip(i + 1), Seq::empty())
                            =~= out_view + (seq![current@] + words_after(s@.skip(i + 1), Seq::empty())));
                        out_view = out_view.push(current@);
                    }
                    out.push(current);
                    current = Vec::new();
                } else {
                    proof {
                        assert(Seq::<Seq<char>>::empty() + words_after(s@.skip(i + 1), Seq::empty())
                            =~= words_after(s@.skip(i + 1), Seq::empty()));
                    }
                    current = Vec::new();
                }
            } else {
                current.push(c);
            }
            i = i + 1;
        }
        proof {
            assert(s@.skip(i as int) =~= Seq::<char>::empty());
        }
        if current.len() > 0 {
            proof {
                out_view = out_view.push(current@);
            }
            out.push(current);
        } else {
            proof {
                assert(out_view + Seq::<Seq<char>>::empty() =~= out_view);
            }
        }
        out
    }
}

proof fn lemma_before_comment_stops(line: Seq<char>, i: int)
    requires
        0 <= i < line.len(),
        line[i] == '#',
        forall|k: int| 0 <= k < i ==> line[k] != '#',
    ensures
        before_comment(line) == line.take(i),
    decreases i,
{
    if i > 0 {
        let rest = line.drop_first();
        assert forall|k: int| 0 <= k < i - 1 implies rest[k] != '#' by {
            assert(rest[k] == line[k + 1]);
        }
        lemma_before_comment_stops(rest, i - 1);
        assert(seq![line[0]] + rest.take(i - 1) =~= line.take(i));
    } else {
        assert(line.take(0) =~= Seq::<char>::empty());
    }
}

proof fn lemma_before_comment_none(line: Seq<char>)
    requires
        forall|k: int| 0 <= k < line.len() ==> line[k] != '#',
    ensures
        before_comment(line) == line,
    decreases line.len(),
{
    if line.len() > 0 {
        let rest = line.drop_first();
        assert forall|k: int| 0 <= k < rest.len() implies rest[k] != '#' by {
            assert(rest[k] == line[k + 1]);
        }
        lemma_before_comment_none(rest);
        assert(seq![line[0]] + rest =~= line);
    }
}

/// One corner of a face: the index of its vertex, counted from 0.
pub struct Face {
    pub v_index: u32,
}

/// The text of a face corner before its first `/`: the vertex number.
pub open spec fn before_slash(s: Seq<char>) -> Seq<char>
    decreases s.len(),
{
    if s.len() == 0 {
        s
    } else if s[0] == '/' {
        Seq::empty()
    } else {
        seq![s[0]] + before_slash(s.drop_first())
    }
}

/// The value of a string of decimal digits.
pub open spec fn digits_value(s: Seq<char>) -> int
    decreases s.len(),
{
    if s.len() == 0 {
        0
    } else {
        digits_value(s.drop_last()) * 10 + (s.last() as int - '0' as int)
    }
}

/// All characters are the ASCII digits `0` to `9`.
pub open spec fn all_digits(s: Seq<char>) -> bool {
    forall|i: int| 0 <= i < s.len() ==> '0' <= #[trigger] s[i] <= '9'
}

/// The number `u32::from_str` reads from `s`: an optional `+` followed by
/// at least one digit, and nothing else, whose value fits in a `u32`.
pub open spec fn decimal_u32(s: Seq<char>) -> Option<u32> {
    let d = if s.len() > 0 && s[0] == '+' { s.drop_first() } else { s };
    if d.len() > 0 && all_digits(d) && digits_value(d) <= u32::MAX {
        Some(digits_value(d) as u32)
    } else {
        None
    }
}

/// `str::parse::<u32>`. Trusted: as the documentation of
/// `u32::from_str_radix` says, it accepts exactly an optional `+` followed by
/// one or more decimal digits whose value fits, and returns that value;
/// which error it returns otherwise is left unsaid.
#[verifier::external_body]
fn parse_u32(s: &str) -> (r: Result<u32, std::num::ParseIntError>)
    ensures
        match r {
            Ok(n) => decimal_u32(s@) == Some(n),
            Err(_) => decimal_u32(s@) is None,
        },
{
    s.parse::<u32>()
}

/// `str::split_once('/')`. Trusted: as its documentation says, it splits
/// `s` at the first `/` into the text before and the text after it, and
/// gives `None` when `s` has no `/`.
#[verifier::external_body]
fn split_at_slash(s: &str) -> (r: Option<(&str, &str)>)
    ensures
        match r {
            Some((before, after)) => s@ == before@ + seq!['/'] + after@ && !before@.contains('/'),
            None => !s@.contains('/'),
        },
{
    s.split_once('/')
}

proof fn lemma_before_slash_prefix(before: Seq<char>, rest: Seq<char>)
    requires
        !before.contains('/'),
    ensures
        before_slash(before + seq!['/'] + rest) == before,
    decreases before.len(),
{
    if before.len() == 0 {
        assert((before + seq!['/'] + rest)[0] == '/');
    } else {
        let s = before + seq!['/'] + rest;
        assert(s[0] == before[0]);
        assert(before[0] != '/');
        let tail = before.drop_first();
        assert(!tail.contains('/')) by {
            if tail.contains('/') {
                let i = choose|i: int| 0 <= i < tail.len() && tail[i] == '/';
                assert(before[i + 1] == '/');
            }
        }
        assert(s.drop_first() =~= tail + seq!['/'] + rest);
        lemma_before_slash_prefix(tail, rest);
        assert(seq![before[0]] + tail =~= before);
    }
}

proof fn lemma_before_slash_none(s: Seq<char>)
    requires
        !s.contains('/'),
    ensures
        before_slash(s) == s,
    decreases s.len(),
{
    if s.len() > 0 {
        assert(s[0] != '/');
        let tail = s.drop_first();
        assert(!tail.contains('/')) by {
            if tail.contains('/') {
                let i = choose|i: int| 0 <= i < tail.len() && tail[i] == '/';
                assert(s[i + 1] == '/');
            }
        }
        lemma_before_slash_none(tail);
        assert(seq![s[0]] + tail =~= s);
    }
}

/// The text of a face corner before its first `/`.
fn first_field(s: &str) -> (r: &str)
    ensures
        r@ == before_slash(s@),
{
    match split_at_slash(s) {
        Some((before, after)) => {
            proof {
                lemma_before_slash_prefix(before@, after@);
            }
            before
        },
        None => {
            proof {
                lemma_before_slash_none(s@);
            }
            s
        },
    }
}

/// The vertex index of a face corner written `v`, `v/vt`, `v/vt/vn` or
/// `v//vn`: the vertex number minus one. A vertex number of 0 is left out,
/// as it has no index.
pub fn parse_face(face: &str) -> (r: Result<Face, ObjError>)
    requires
        decimal_u32(before_slash(face@)) != Some(0u32),
    ensures
        match decimal_u32(before_slash(face@)) {
            Some(n) => r matches Ok(f) && f.v_index == n - 1,
            None => r matches Err(ObjError::ParseInt(_)),
        },
{
    let first = first_field(face);
    match parse_u32(first) {
        Ok(n) => Ok(Face { v_index: n - 1 }),
        Err(e) => Err(ObjError::ParseInt(e)),
    }
}


/// The vertex number that a face corner is written with, if it is one.
pub open spec fn corner_number(corner: &str) -> Option<u32> {
    decimal_u32(before_slash(corner@))
}

/// Reading the first three corners in turn meets no vertex number 0
/// before a corner that fails to parse.
pub open spec fn corners_readable(args: Seq<&str>) -> bool {
    forall|i: int|
        0 <= i < 3 && (forall|j: int| 0 <= j < i ==> (#[trigger] corner_number(args[j])) is Some)
            ==> corner_number(#[trigger] args[i]) != Some(0u32)
}

/// The vertex indices of the triangle that an `f` statement with
/// arguments `args` gives: its first three corners, read in turn. Fewer
/// than three arguments are an error, and so is the first corner whose
/// vertex number does not parse.
pub fn face_indices(args: &[&str]) -> (r: Result<[u32; 3], ObjError>)
    requires
        args.len() >= 3 ==> corners_readable(args@),
    ensures
        args.len() < 3 ==> r matches Err(ObjError::WrongNumberOfArguments),
        args.len() >= 3 ==> match (corner_number(args[0]), corner_number(args[1]), corner_number(args[2])) {
            (Some(a), Some(b), Some(c)) => r matches Ok(v) && v[0] == a - 1 && v[1] == b - 1 && v[2] == c - 1,
            _ => r matches Err(ObjError::ParseInt(_)),
        },
{
    if args.len() < 3 {
        return Err(ObjError::WrongNumberOfArguments);
    }
    assert(corner_number(args@[0]) != Some(0u32));
    let a = parse_face(args[0])?;
    assert(corner_number(args@[0]) is Some);
    assert(corner_number(args@[1]) != Some(0u32));
    let b = parse_face(args[1])?;
    assert(corner_number(args@[1]) is Some);
    assert(corner_number(args@[2]) != Some(0u32));
    let c = parse_face(args[2])?;
    Ok([a.v_index, b.v_index, c.v_index])
}

} // verus!
