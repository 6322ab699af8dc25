use spine::atlas::{parse_bool, parse_pair, Atlas, AtlasError, Shape, Texture};

fn lines(text: &str) -> Vec<String> {
    text.lines().map(|l| l.to_string()).collect()
}

const SAMPLE: &str = "
hero.png
size: 512,256
format: RGBA8888
filter: Linear,Linear
repeat: none
head
  rotate: false
  xy: 2, 4
  size: 64, 80
  orig: 64, 80
  offset: 0, 0
  index: -1

arm
  rotate: true
  xy: 70,4
  size: 20, 50,
  orig: 20, 50
  offset: 1, 2
  index: 3
";

fn texture(t: Option<Result<Texture, AtlasError>>) -> Texture {
    t.unwrap().ok().unwrap()
}

#[test]
fn reads_headers() {
    let a = Atlas::from_lines(lines(SAMPLE)).ok().unwrap();
    assert_eq!(a.file, "hero.png");
    assert_eq!(a.format, "RGBA8888");
    assert_eq!(a.filter, "Linear,Linear");
    assert_eq!(a.repeat, "none");
}

#[test]
fn reads_regions_in_order() {
    let mut a = Atlas::from_lines(lines(SAMPLE)).ok().unwrap();
    let head = texture(a.next());
    assert_eq!(head.name, "head");
    assert!(!head.rotate);
    assert_eq!((head.xy, head.size, head.orig, head.offset, head.index), ((2, 4), (64, 80), (64, 80), (0, 0), -1));
    let arm = texture(a.next());
    assert_eq!(arm.name, "arm");
    assert!(arm.rotate);
    assert_eq!((arm.xy, arm.size, arm.offset, arm.index), ((70, 4), (20, 50), (1, 2), 3));
    assert!(a.next().is_none());
}

#[test]
fn blank_text_has_no_header() {
    assert_eq!(Atlas::from_lines(lines("\n  \n")).err(), Some(AtlasError::Unexpected(Shape::Headers)));
}

#[test]
fn truncated_header() {
    assert_eq!(Atlas::from_lines(lines("hero.png\nsize: 1,1\n")).err(), Some(AtlasError::Unexpected(Shape::Eof)));
    assert_eq!(
        Atlas::from_lines(lines("hero.png\nsize: 1,1\nfmt\n")).err(),
        Some(AtlasError::Unexpected(Shape::MappingName))
    );
}

fn region(body: &str) -> Option<Result<Texture, AtlasError>> {
    let text = format!("hero.png\nsize: 1,1\nformat: A\nfilter: B\nrepeat: C\nr\n{}", body);
    let mut a = Atlas::from_lines(lines(&text)).ok().unwrap();
    a.next()
}

#[test]
fn region_errors() {
    let ok = "rotate: false\nxy: 1, 2\nsize: 3, 4\norig: 5, 6\noffset: 7, 8\nindex: 9";
    assert_eq!(texture(region(ok)).index, 9);
    let bad_bool = ok.replace("false", "no");
    assert_eq!(region(&bad_bool).unwrap().err(), Some(AtlasError::ParseBoolError));
    let bad_int = ok.replace("3, 4", "3, x");
    assert_eq!(region(&bad_int).unwrap().err(), Some(AtlasError::ParseIntError));
    let single = ok.replace("5, 6", "5");
    assert_eq!(region(&single).unwrap().err(), Some(AtlasError::Unexpected(Shape::Tuple)));
    let big = ok.replace("7, 8", "70000, 8");
    assert_eq!(region(&big).unwrap().err(), Some(AtlasError::ParseIntError));
    let short = ok.replace("index: 9", "");
    assert_eq!(region(&short).unwrap().err(), Some(AtlasError::Unexpected(Shape::Eof)));
    let cut = ok.replace("rotate: false", "rot");
    assert_eq!(region(&cut).unwrap().err(), Some(AtlasError::Unexpected(Shape::Field)));
}

#[test]
fn error_descriptions() {
    assert_eq!(AtlasError::ParseIntError.description(), "error parsing integer");
    assert_eq!(Shape::Tuple.description(), "tuple");
}

#[test]
fn pairs_and_flags_from_text() {
    assert_eq!(parse_pair(" 3 ,\t4 "), Ok((3, 4)));
    assert_eq!(parse_pair("3,4,5"), Ok((3, 4)));
    assert_eq!(parse_pair("3"), Err(AtlasError::Unexpected(Shape::Tuple)));
    assert_eq!(parse_pair("+3, -4"), Err(AtlasError::ParseIntError));
    assert_eq!(parse_bool("true"), Some(true));
    assert_eq!(parse_bool(" true"), None);
}

#[test]
fn header_values_lose_unicode_white_space() {
    let a = Atlas::from_lines(lines("hero.png\nsize: 1,1\nformat:\u{3000}RGBA8888\u{3000}\nfilter: B\nrepeat: C")).ok().unwrap();
    assert_eq!(a.format, "RGBA8888");
}
