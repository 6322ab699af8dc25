//! Reading `.atlas` texture atlas descriptions, line by line.
use vstd::prelude::*;
use crate::util::same_text;

verus! {

/// A region of the atlas image.
pub struct Texture {
    pub name: String,
    pub rotate: bool,
    pub xy: (u16, u16),
    pub size: (u16, u16),
    pub orig: (u16, u16),
    pub offset: (u16, u16),
    pub index: i16,
}

/// Which part of an atlas description is not where it should be.
#[derive(Clone, Copy, Debug, PartialEq, Eq, Structural)]
pub enum Shape {
    /// The text ends too early.
    Eof,
    /// No header before the end of the text.
    Headers,
    /// A header line is shorter than its name.
    MappingName,
    /// A pair of numbers lacks its second number.
    Tuple,
    /// A region line is shorter than its name.
    Field,
}

impl Shape {
    /// A short description.
    pub fn description(&self) -> (r: &'static str) {
        match self {
            Shape::Eof => "EOF",
            Shape::Headers => "cannot parse headers",
            Shape::MappingName => "unexpected mapping name",
            Shape::Tuple => "tuple",
            Shape::Field => "unexpected field",
        }
    }
}

/// Why an atlas description could not be read.
#[derive(Clone, Debug, PartialEq, Eq)]
pub enum AtlasError {
    /// The lines could not be read; the reader's message.
    IoError(String),
    /// The text does not have the expected shape.
    Unexpected(Shape),
    /// A number does not read as an integer of its type.
    ParseIntError,
    /// A flag is neither `true` nor `false`.
    ParseBoolError,
}

impl AtlasError {
    /// A short description of the kind of error.
    pub fn description(&self) -> (r: &'static str) {
        match self {
            AtlasError::ParseIntError => "error parsing integer",
            AtlasError::ParseBoolError => "error parsing boolean",
            AtlasError::Unexpected(_) => "unexpected error",
            AtlasError::IoError(_) => "error reading atlas file",
        }
    }
}

/// The header of an atlas and the region descriptions that follow it.
pub struct Atlas {
    /// Name of the image file.
    pub file: String,
    pub format: String,
    pub filter: String,
    pub repeat: String,
    /// The lines of the description, and how many of them are read.
    pub lines: Vec<String>,
    pub position: usize,
}

/// `c` is white space: a character with Unicode's `White_Space` property.
pub open spec fn is_white(c: char) -> bool {
    ('\u{9}' <= c && c <= '\u{d}') || c == ' ' || c == '\u{85}' || c == '\u{a0}' || c == '\u{1680}'
        || ('\u{2000}' <= c && c <= '\u{200a}') || c == '\u{2028}' || c == '\u{2029}' || c == '\u{202f}'
        || c == '\u{205f}' || c == '\u{3000}'
}

/// `s` without its leading white space.
pub open spec fn trimmed_start(s: Seq<char>) -> Seq<char>
    decreases s.len(),
{
    if s.len() > 0 && is_white(s[0]) {
        trimmed_start(s.drop_first())
    } else {
        s
    }
}

/// `s` without its trailing white space.
pub open spec fn trimmed_end(s: Seq<char>) -> Seq<char>
    decreases s.len(),
{
    if s.len() > 0 && is_white(s.last()) {
        trimmed_end(s.drop_last())
    } else {
        s
    }
}

/// `s` without its leading and trailing white space.
pub open spec fn trimmed(s: Seq<char>) -> Seq<char> {
    trimmed_end(trimmed_start(s))
}

/// Relies on `str::trim` of std: `s` without leading and trailing white space
/// (characters with the `White_Space` property).
#[verifier::external_body]
fn trim(s: &str) -> (r: &str)
    ensures
        r@ == trimmed(s@),
{
    s.trim()
}

/// Relies on `str::trim_start` of std: `s` without leading white space.
#[verifier::external_body]
fn trim_start(s: &str) -> (r: &str)
    ensures
        r@ == trimmed_start(s@),
{
    s.trim_start()
}

/// `s` is one or more ASCII digits.
pub open spec fn all_digits(s: Seq<char>) -> bool {
    s.len() > 0 && forall|i: int| 0 <= i < s.len() ==> '0' <= #[trigger] s[i] && s[i] <= '9'
}

/// The number the decimal digits `s` write.
pub open spec fn digits_value(s: Seq<char>) -> nat
    decreases s.len(),
{
    if s.len() == 0 {
        0
    } else {
        10 * digits_value(s.drop_last()) + (s.last() as nat - '0' as nat) as nat
    }
}

/// The magnitude written by `s`: digits, after an optional sign `sign`.
pub open spec fn magnitude(s: Seq<char>, sign: char) -> Option<nat> {
    let body = if s.len() > 0 && s[0] == sign { s.drop_first() } else { s };
    if all_digits(body) { Some(digits_value(body)) } else { None }
}

/// The `u16` that `s` writes in decimal, with an optional `+`.
pub open spec fn u16_of(s: Seq<char>) -> Option<u16> {
    match magnitude(s, '+') {
        Some(v) => if v <= 65535 { Some(v as u16) } else { None },
        None => None,
    }
}

/// The `i16` that `s` writes in decimal, with an optional `+` or `-`.
pub open spec fn i16_of(s: Seq<char>) -> Option<i16> {
    if s.len() > 0 && s[0] == '-' {
        match magnitude(s, '-') {
            Some(v) => if v <= 32768 { Some((0 - v) as i16) } else { None },
            None => None,
        }
    } else {
        match magnitude(s, '+') {
            Some(v) => if v <= 32767 { Some(v as i16) } else { None },
            None => None,
        }
    }
}

/// Relies on `u16::from_str` of std: an optional `+` then decimal digits, the
/// value in range; nothing else (no blanks) is accepted.
#[verifier::external_body]
fn parse_u16(s: &str) -> (r: Option<u16>)
    ensures
        r == u16_of(s@),
{
    s.parse::<u16>().ok()
}

/// Relies on `i16::from_str` of std: an optional `+` or `-` then decimal
/// digits, the value in range; nothing else (no blanks) is accepted.
#[verifier::external_body]
fn parse_i16(s: &str) -> (r: Option<i16>)
    ensures
        r == i16_of(s@),
{
    s.parse::<i16>().ok()
}

/// The flag `s` writes: exactly `true` or `false`.
pub open spec fn bool_of(s: Seq<char>) -> Option<bool> {
    if s == "true"@ {
        Some(true)
    } else if s == "false"@ {
        Some(false)
    } else {
        None
    }
}

/// Reads a flag.
pub fn parse_bool(s: &str) -> (r: Option<bool>)
    ensures
        r == bool_of(s@),
{
    if same_text(s, "true") {
        Some(true)
    } else if same_text(s, "false") {
        Some(false)
    } else {
        None
    }
}

/// What follows the first `n` characters of `line`, trimmed.
pub open spec fn value_after(line: Seq<char>, n: nat) -> Option<Seq<char>> {
    if line.len() >= n { Some(trimmed(line.skip(n as int))) } else { None }
}

/// Position of the first `c` in `s`, if any.
pub open spec fn first_char(s: Seq<char>, c: char) -> Option<int> {
    if exists|i: int| 0 <= i < s.len() && s[i] == c {
        Some(choose|i: int| 0 <= i < s.len() && s[i] == c && forall|j: int| 0 <= j < i ==> s[j] != c)
    } else {
        None
    }
}

/// The first two comma-separated fields of `s`; the second is `None` when
/// `s` has no comma.
pub open spec fn two_fields(s: Seq<char>) -> (Seq<char>, Option<Seq<char>>) {
    match first_char(s, ',') {
        None => (s, None),
        Some(p) => {
            let rest = s.skip(p + 1);
            match first_char(rest, ',') {
                None => (s.take(p), Some(rest)),
                Some(q) => (s.take(p), Some(rest.take(q))),
            }
        },
    }
}

/// The pair of numbers written by `text` as `a, b` (more fields are ignored).
pub open spec fn pair_of(text: Seq<char>) -> Result<(u16, u16), AtlasError> {
    let (a, b) = two_fields(text);
    match u16_of(trimmed(a)) {
        None => Err(AtlasError::ParseIntError),
        Some(x) => match b {
            None => Err(AtlasError::Unexpected(Shape::Tuple)),
            Some(b) => match u16_of(trimmed(b)) {
                None => Err(AtlasError::ParseIntError),
                Some(y) => Ok((x, y)),
            },
        },
    }
}

proof fn lemma_first_char_witness(s: Seq<char>, c: char, i: int)
    requires
        0 <= i < s.len(),
        s[i] == c,
    ensures
        exists|k: int| 0 <= k < s.len() && s[k] == c && forall|j: int| 0 <= j < k ==> s[j] != c,
    decreases i,
{
    if exists|j: int| 0 <= j < i && s[j] == c {
        let j = choose|j: int| 0 <= j < i && s[j] == c;
        lemma_first_char_witness(s, c, j);
    } else {
        assert(forall|j: int| 0 <= j < i ==> s[j] != c);
    }
}

/// Finds the first `c` in `s`.
pub fn find_char(s: &str, c: char) -> (r: Option<usize>)
    ensures
        match first_char(s@, c) {
            Some(p) => r matches Some(k) && k == p,
            None => r is None,
        },
        r matches Some(k) ==> k < s@.len(),
{
    let n = s.unicode_len();
    let mut i: usize = 0;
    while i < n
        invariant
            n == s@.len(),
            i <= n,
            forall|j: int| 0 <= j < i ==> s@[j] != c,
        decreases n - i,
    {
        if s.get_char(i) == c {
            proof {
                lemma_first_char_witness(s@, c, i as int);
                let k = choose|k: int| 0 <= k < s@.len() && s@[k] == c && forall|j: int| 0 <= j < k ==> s@[j] != c;
                assert(k == i) by {
                    if k < i {
                        assert(s@[k] != c);
                    }
                    if i < k {
                        assert(s@[i as int] != c);
                    }
                }
            }
            return Some(i);
        }
        i = i + 1;
    }
    None
}

/// Splits off the first two comma-separated fields.
pub fn split_two(s: &str) -> (r: (&str, Option<&str>))
    ensures
        r.0@ == two_fields(s@).0,
        match two_fields(s@).1 {
            Some(b) => r.1 matches Some(x) && x@ == b,
            None => r.1 is None,
        },
{
    let n = s.unicode_len();
    match find_char(s, ',') {
        None => (s, None),
        Some(p) => {
            let first = s.substring_char(0, p);
            let rest = s.substring_char(p + 1, n);
            assert(rest@ == s@.skip(p as int + 1));
            assert(first@ == s@.take(p as int));
            match find_char(rest, ',') {
                None => (first, Some(rest)),
                Some(q) => {
                    let second = rest.substring_char(0, q);
                    assert(second@ == rest@.take(q as int));
                    (first, Some(second))
                },
            }
        },
    }
}

/// Reads a pair of numbers `a, b`.
pub fn parse_pair(text: &str) -> (r: Result<(u16, u16), AtlasError>)
    ensures
        r == pair_of(text@),
{
    let (a, b) = split_two(text);
    let x = match parse_u16(trim(a)) {
        Some(x) => x,
        None => return Err(AtlasError::ParseIntError),
    };
    match b {
        None => Err(AtlasError::Unexpected(Shape::Tuple)),
        Some(b) => match parse_u16(trim(b)) {
            Some(y) => Ok((x, y)),
            None => Err(AtlasError::ParseIntError),
        },
    }
}

/// What follows the first `n` characters of `line` once leading blanks are
/// dropped; `None` when too little is left.
pub open spec fn field_after(line: Seq<char>, n: nat) -> Option<Seq<char>> {
    let t = trimmed_start(line);
    if t.len() >= n { Some(t.skip(n as int)) } else { None }
}

/// The `rotate:` flag of a region line.
pub open spec fn rotate_of(line: Seq<char>) -> Result<bool, AtlasError> {
    match field_after(line, 7) {
        None => Err(AtlasError::Unexpected(Shape::Field)),
        Some(v) => match bool_of(trimmed(v)) {
            Some(b) => Ok(b),
            None => Err(AtlasError::ParseBoolError),
        },
    }
}

/// The pair of a region line whose name has `n` characters.
pub open spec fn tuple_of(line: Seq<char>, n: nat) -> Result<(u16, u16), AtlasError> {
    match field_after(line, n) {
        None => Err(AtlasError::Unexpected(Shape::Field)),
        Some(v) => pair_of(v),
    }
}

/// The `index:` number of a region line.
pub open spec fn index_of(line: Seq<char>) -> Result<i16, AtlasError> {
    match field_after(line, 6) {
        None => Err(AtlasError::Unexpected(Shape::Field)),
        Some(v) => match i16_of(trimmed(v)) {
            Some(i) => Ok(i),
            None => Err(AtlasError::ParseIntError),
        },
    }
}

/// Line `i` of `lines`, if there is one.
pub open spec fn line_at(lines: Seq<String>, i: int) -> Option<Seq<char>> {
    if 0 <= i < lines.len() { Some(lines[i]@) } else { None }
}

/// The pair on line `i`, whose name has `n` characters.
pub open spec fn tuple_line(lines: Seq<String>, i: int, n: nat) -> Result<(u16, u16), AtlasError> {
    match line_at(lines, i) {
        None => Err(AtlasError::Unexpected(Shape::Eof)),
        Some(l) => tuple_of(l, n),
    }
}

/// The four pairs `xy`, `size`, `orig`, `offset` on the lines from `p` on.
pub open spec fn tuples_from(lines: Seq<String>, p: int) -> Result<((u16, u16), (u16, u16), (u16, u16), (u16, u16)), AtlasError> {
    match tuple_line(lines, p, 3) {
        Err(e) => Err(e),
        Ok(xy) => match tuple_line(lines, p + 1, 5) {
            Err(e) => Err(e),
            Ok(size) => match tuple_line(lines, p + 2, 5) {
                Err(e) => Err(e),
                Ok(orig) => match tuple_line(lines, p + 3, 7) {
                    Err(e) => Err(e),
                    Ok(offset) => Ok((xy, size, orig, offset)),
                },
            },
        },
    }
}

/// The region described on the six lines from `p` on: its flag, pairs and
/// index, or the first problem met.
pub open spec fn region_from(lines: Seq<String>, p: int)
    -> Result<(bool, ((u16, u16), (u16, u16), (u16, u16), (u16, u16)), i16), AtlasError> {
    match line_at(lines, p) {
        None => Err(AtlasError::Unexpected(Shape::Eof)),
        Some(l) => match rotate_of(l) {
            Err(e) => Err(e),
            Ok(rotate) => match tuples_from(lines, p + 1) {
                Err(e) => Err(e),
                Ok(t) => match line_at(lines, p + 5) {
                    None => Err(AtlasError::Unexpected(Shape::Eof)),
                    Some(l5) => match index_of(l5) {
                        Err(e) => Err(e),
                        Ok(index) => Ok((rotate, t, index)),
                    },
                },
            },
        },
    }
}

/// Reads line `*pos` and moves past it.
fn next_line(lines: &Vec<String>, pos: &mut usize) -> (r: Result<String, AtlasError>)
    ensures
        match line_at(lines@, *old(pos) as int) {
            Some(l) => r matches Ok(s) && s@ == l && *final(pos) == *old(pos) + 1,
            None => r == Err::<String, AtlasError>(AtlasError::Unexpected(Shape::Eof)) && *final(pos) == *old(pos),
        },
{
    if *pos < lines.len() {
        let line = lines[*pos].clone();
        *pos = *pos + 1;
        Ok(line)
    } else {
        Err(AtlasError::Unexpected(Shape::Eof))
    }
}

/// What follows the first `n` characters of `text`, trimmed.
pub fn value_after_name(text: &str, n: usize) -> (r: Option<String>)
    ensures
        match value_after(text@, n as nat) {
            Some(v) => r matches Some(s) && s@ == v,
            None => r is None,
        },
{
    let len = text.unicode_len();
    if len >= n {
        let rest = text.substring_char(n, len);
        assert(rest@ == text@.skip(n as int));
        Some(trim(rest).to_owned())
    } else {
        None
    }
}

/// Reads the value of the header line `name`: what follows the name, trimmed.
fn mapping_value(lines: &Vec<String>, pos: &mut usize, name: &str) -> (r: Result<String, AtlasError>)
    ensures
        match line_at(lines@, *old(pos) as int) {
            Some(l) => *final(pos) == *old(pos) + 1 && match value_after(l, name@.len()) {
                Some(v) => r matches Ok(s) && s@ == v,
                None => r == Err::<String, AtlasError>(AtlasError::Unexpected(Shape::MappingName)),
            },
            None => r == Err::<String, AtlasError>(AtlasError::Unexpected(Shape::Eof)) && *final(pos) == *old(pos),
        },
{
    let text = match next_line(lines, pos) {
        Ok(t) => t,
        Err(e) => return Err(e),
    };
    match value_after_name(text.as_str(), name.unicode_len()) {
        Some(v) => Ok(v),
        None => Err(AtlasError::Unexpected(Shape::MappingName)),
    }
}

/// The text after a region line's name, leading blanks dropped first.
pub fn field(line: &str, n: usize) -> (r: Option<&str>)
    ensures
        match field_after(line@, n as nat) {
            Some(v) => r matches Some(s) && s@ == v,
            None => r is None,
        },
{
    let t = trim_start(line);
    let len = t.unicode_len();
    if len >= n {
        let rest = t.substring_char(n, len);
        assert(rest@ == t@.skip(n as int));
        Some(rest)
    } else {
        None
    }
}

impl Atlas {
    /// Reads the pair on the next line, whose name has `offset` characters.
    fn parse_tuple(&mut self, offset: usize) -> (r: Result<(u16, u16), AtlasError>)
        ensures
            r == tuple_line(old(self).lines@, old(self).position as int, offset as nat),
            final(self).lines == old(self).lines,
            final(self).file == old(self).file,
            final(self).format == old(self).format,
            final(self).filter == old(self).filter,
            final(self).repeat == old(self).repeat,
            old(self).position as int <= final(self).position as int <= old(self).position as int + 1,
            r is Ok ==> final(self).position == old(self).position + 1,
    {
        let line = match next_line(&self.lines, &mut self.position) {
            Ok(l) => l,
            Err(e) => return Err(e),
        };
        match field(line.as_str(), offset) {
            Some(v) => parse_pair(v),
            None => Err(AtlasError::Unexpected(Shape::Field)),
        }
    }

    /// Reads the four pairs of a region description.
    fn read_tuples(&mut self) -> (r: Result<((u16, u16), (u16, u16), (u16, u16), (u16, u16)), AtlasError>)
        ensures
            r == tuples_from(old(self).lines@, old(self).position as int),
            final(self).lines == old(self).lines,
            final(self).file == old(self).file,
            final(self).format == old(self).format,
            final(self).filter == old(self).filter,
            final(self).repeat == old(self).repeat,
            old(self).position <= final(self).position <= old(self).position + 4,
            r is Ok ==> final(self).position == old(self).position + 4,
    {
        let xy = match self.parse_tuple(3) {
            Ok(t) => t,
            Err(e) => return Err(e),
        };
        let size = match self.parse_tuple(5) {
            Ok(t) => t,
            Err(e) => return Err(e),
        };
        let orig = match self.parse_tuple(5) {
            Ok(t) => t,
            Err(e) => return Err(e),
        };
        let offset = match self.parse_tuple(7) {
            Ok(t) => t,
            Err(e) => return Err(e),
        };
        Ok((xy, size, orig, offset))
    }

    /// Reads the `rotate:` line of a region description.
    fn read_rotate(&mut self) -> (r: Result<bool, AtlasError>)
        ensures
            match line_at(old(self).lines@, old(self).position as int) {
                None => r == Err::<bool, AtlasError>(AtlasError::Unexpected(Shape::Eof)),
                Some(l) => r == rotate_of(l),
            },
            final(self).lines == old(self).lines,
            final(self).file == old(self).file,
            final(self).format == old(self).format,
            final(self).filter == old(self).filter,
            final(self).repeat == old(self).repeat,
            old(self).position <= final(self).position <= old(self).position + 1,
            r is Ok ==> final(self).position == old(self).position + 1,
    {
        let line = match next_line(&self.lines, &mut self.position) {
            Ok(l) => l,
            Err(e) => return Err(e),
        };
        match field(line.as_str(), 7) {
            Some(v) => match parse_bool(trim(v)) {
                Some(b) => Ok(b),
                None => Err(AtlasError::ParseBoolError),
            },
            None => Err(AtlasError::Unexpected(Shape::Field)),
        }
    }

    /// Reads the `index:` line of a region description.
    fn read_index(&mut self) -> (r: Result<i16, AtlasError>)
        ensures
            match line_at(old(self).lines@, old(self).position as int) {
                None => r == Err::<i16, AtlasError>(AtlasError::Unexpected(Shape::Eof)),
                Some(l) => r == index_of(l),
            },
            final(self).lines == old(self).lines,
            final(self).file == old(self).file,
            final(self).format == old(self).format,
            final(self).filter == old(self).filter,
            final(self).repeat == old(self).repeat,
            old(self).position <= final(self).position <= old(self).position + 1,
            r is Ok ==> final(self).position == old(self).position + 1,
    {
        let line = match next_line(&self.lines, &mut self.position) {
            Ok(l) => l,
            Err(e) => return Err(e),
        };
        match field(line.as_str(), 6) {
            Some(v) => match parse_i16(trim(v)) {
                Some(i) => Ok(i),
                None => Err(AtlasError::ParseIntError),
            },
            None => Err(AtlasError::Unexpected(Shape::Field)),
        }
    }

    /// Reads the description of region `name` on the next six lines.
    fn read_texture(&mut self, name: &str) -> (r: Result<Texture, AtlasError>)
        ensures
            match region_from(old(self).lines@, old(self).position as int) {
                Ok((rotate, (xy, size, orig, offset), index)) => r matches Ok(t) && t.name@ == name@
                    && t.rotate == rotate && t.xy == xy && t.size == size && t.orig == orig
                    && t.offset == offset && t.index == index
                    && final(self).position == old(self).position + 6,
                Err(e) => r == Err::<Texture, AtlasError>(e),
            },
            final(self).lines == old(self).lines,
            final(self).file == old(self).file,
            final(self).format == old(self).format,
            final(self).filter == old(self).filter,
            final(self).repeat == old(self).repeat,
            old(self).position <= final(self).position <= old(self).position + 6,
    {
        let rotate = match self.read_rotate() {
            Ok(b) => b,
            Err(e) => return Err(e),
        };
        let (xy, size, orig, offset) = match self.read_tuples() {
            Ok(t) => t,
            Err(e) => return Err(e),
        };
        let index = match self.read_index() {
            Ok(i) => i,
            Err(e) => return Err(e),
        };
        Ok(Texture { name: name.to_owned(), rotate, xy, size, orig, offset, index })
    }
}

/// Line `l` holds only blanks.
pub open spec fn blank(l: Seq<char>) -> bool {
    trimmed(l).len() == 0
}

/// The first line at or after `from` that is not blank.
pub open spec fn first_filled(lines: Seq<String>, from: int) -> Option<int>
    decreases lines.len() - from,
{
    if from < 0 || from >= lines.len() {
        None
    } else if !blank(lines[from]@) {
        Some(from)
    } else {
        first_filled(lines, from + 1)
    }
}

/// The value of header line `i`, whose name has `n` characters.
pub open spec fn header_value(lines: Seq<String>, i: int, n: nat) -> Result<Seq<char>, AtlasError> {
    match line_at(lines, i) {
        None => Err(AtlasError::Unexpected(Shape::Eof)),
        Some(l) => match value_after(l, n) {
            Some(v) => Ok(v),
            None => Err(AtlasError::Unexpected(Shape::MappingName)),
        },
    }
}

/// The `format`, `filter` and `repeat` headers that follow the file name on
/// line `h` (after a `size` header), or the first problem met.
pub open spec fn headers_after(lines: Seq<String>, h: int) -> Result<(Seq<char>, Seq<char>, Seq<char>), AtlasError> {
    match header_value(lines, h + 1, 5) {
        Err(e) => Err(e),
        Ok(_) => match header_value(lines, h + 2, 7) {
            Err(e) => Err(e),
            Ok(format) => match header_value(lines, h + 3, 7) {
                Err(e) => Err(e),
                Ok(filter) => match header_value(lines, h + 4, 7) {
                    Err(e) => Err(e),
                    Ok(repeat) => Ok((format, filter, repeat)),
                },
            },
        },
    }
}

proof fn lemma_first_filled_range(lines: Seq<String>, from: int)
    requires
        0 <= from,
    ensures
        first_filled(lines, from) matches Some(h) ==> from <= h < lines.len() && !blank(lines[h]@),
    decreases lines.len() - from,
{
    if from < lines.len() && blank(lines[from]@) {
        lemma_first_filled_range(lines, from + 1);
    }
}

/// Moves `*pos` to the first line at or after it that is not blank.
fn skip_blank(lines: &Vec<String>, pos: &mut usize)
    ensures
        match first_filled(lines@, *old(pos) as int) {
            Some(h) => *final(pos) == h && h < lines@.len(),
            None => *final(pos) >= lines@.len(),
        },
{
    proof {
        lemma_first_filled_range(lines@, *pos as int);
    }
    if *pos >= lines.len() {
        return;
    }
    while *pos < lines.len()
        invariant
            first_filled(lines@, *old(pos) as int) == first_filled(lines@, *pos as int),
            *old(pos) < lines@.len() || *pos == *old(pos),
        decreases lines@.len() - *pos,
    {
        if trim(lines[*pos].as_str()).unicode_len() != 0 {
            return;
        }
        *pos = *pos + 1;
    }
}

impl Atlas {
    /// Reads the header of an atlas: the first line that is not blank names
    /// the image, and `size`, `format`, `filter` and `repeat` lines follow.
    pub fn from_lines(lines: Vec<String>) -> (r: Result<Atlas, AtlasError>)
        ensures
            match first_filled(lines@, 0) {
                None => r == Err::<Atlas, AtlasError>(AtlasError::Unexpected(Shape::Headers)),
                Some(h) => match headers_after(lines@, h) {
                    Err(e) => r == Err::<Atlas, AtlasError>(e),
                    Ok((format, filter, repeat)) => r matches Ok(a) && a.file@ == lines@[h]@
                        && a.format@ == format && a.filter@ == filter && a.repeat@ == repeat
                        && a.lines@ == lines@ && a.position == h + 5,
                },
            },
    {
        proof {
            reveal_strlit("size:");
            reveal_strlit("format:");
            reveal_strlit("filter:");
            reveal_strlit("repeat:");
        }
        let mut pos: usize = 0;
        skip_blank(&lines, &mut pos);
        if pos >= lines.len() {
            return Err(AtlasError::Unexpected(Shape::Headers));
        }
        let file = lines[pos].clone();
        pos = pos + 1;
        match mapping_value(&lines, &mut pos, "size:") {
            Ok(_) => {},
            Err(e) => return Err(e),
        }
        let format = match mapping_value(&lines, &mut pos, "format:") {
            Ok(v) => v,
            Err(e) => return Err(e),
        };
        let filter = match mapping_value(&lines, &mut pos, "filter:") {
            Ok(v) => v,
            Err(e) => return Err(e),
        };
        let repeat = match mapping_value(&lines, &mut pos, "repeat:") {
            Ok(v) => v,
            Err(e) => return Err(e),
        };
        Ok(Atlas { file, format, filter, repeat, lines, position: pos })
    }

    /// Reads the next region: its name is the next line that is not blank,
    /// trimmed; `None` once no such line is left.
    pub fn next(&mut self) -> (r: Option<Result<Texture, AtlasError>>)
        ensures
            final(self).lines == old(self).lines,
            final(self).file == old(self).file,
            final(self).format == old(self).format,
            final(self).filter == old(self).filter,
            final(self).repeat == old(self).repeat,
            match first_filled(old(self).lines@, old(self).position as int) {
                None => r is None,
                Some(h) => r matches Some(res) && match region_from(old(self).lines@, h + 1) {
                    Ok((rotate, (xy, size, orig, offset), index)) => res matches Ok(t)
                        && t.name@ == trimmed(trimmed(old(self).lines@[h]@))
                        && t.rotate == rotate && t.xy == xy && t.size == size && t.orig == orig
                        && t.offset == offset && t.index == index
                        && final(self).position == h + 7,
                    Err(e) => res == Err::<Texture, AtlasError>(e),
                },
            },
    {
        skip_blank(&self.lines, &mut self.position);
        if self.position >= self.lines.len() {
            return None;
        }
        let line = self.lines[self.position].clone();
        self.position = self.position + 1;
        let name = trim(line.as_str());
        Some(self.read_texture(trim(name)))
    }
}

} // verus!
