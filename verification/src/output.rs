//! Where the documents go: the names of the output files, numbered by line,
//! and the template of such names that a path may end in.

use vstd::prelude::*;
use vstd::string::*;
use crate::decimal::{natural_text, push_natural};

verus! {

/// The place holder that stands for the line number in a template.
pub open spec fn placeholder() -> Seq<char> {
    seq!['{', '}']
}

/// The ending of every output file's name.
pub open spec fn suffix() -> Seq<char> {
    seq!['.', 's', 'v', 'g']
}

/// Why a file name is no template.
#[derive(Clone, Copy, Debug, PartialEq, Eq)]
pub enum FormatError {
    /// What follows the text before the first `{` is not `{}`.
    NoPlaceholder,
    /// What follows the text between `{}` and the next `.` is not `.svg`.
    NoSuffix,
}

/// The first position at or after `from` at which `c` stands in `text`, or the
/// length of `text` where it stands nowhere from there on.
pub open spec fn scan(text: Seq<char>, c: char, from: int) -> int
    decreases text.len() - from,
{
    if from >= text.len() {
        text.len() as int
    } else if text[from] == c {
        from
    } else {
        scan(text, c, from + 1)
    }
}

/// Whether `word` stands in `text` at the position `at`.
pub open spec fn stands_at(text: Seq<char>, at: int, word: Seq<char>) -> bool {
    0 <= at && at + word.len() <= text.len() && text.subrange(at, at + word.len()) == word
}

/// A file name read as a template: the text before the first `{`, then `{}`,
/// the text up to the next `.`, then `.svg`. The result is what is left behind
/// `.svg`, and the two texts on either side of `{}`.
pub open spec fn parsed_file(file: Seq<char>) -> Result<
    (Seq<char>, (Seq<char>, Seq<char>)),
    FormatError,
> {
    let open = scan(file, '{', 0);
    let dot = scan(file, '.', open + 2);
    if !stands_at(file, open, placeholder()) {
        Err(FormatError::NoPlaceholder)
    } else if !stands_at(file, dot, suffix()) {
        Err(FormatError::NoSuffix)
    } else {
        Ok((file.skip(dot + 4), (file.take(open), file.subrange(open + 2, dot))))
    }
}

/// What `scan` finds: nothing but other characters lie between `from` and the
/// position found, and `c` stands at that position unless the text ends there.
pub proof fn lemma_scan_finds_first(text: Seq<char>, c: char, from: int)
    requires
        0 <= from <= text.len(),
    ensures
        from <= scan(text, c, from) <= text.len(),
        forall|k: int| from <= k < scan(text, c, from) ==> text[k] != c,
        scan(text, c, from) < text.len() ==> text[scan(text, c, from)] == c,
    decreases text.len() - from,
{
    if from < text.len() && text[from] != c {
        lemma_scan_finds_first(text, c, from + 1);
    }
}

/// The position that `scan` finds is the only one of its kind.
pub proof fn lemma_scan_is_unique(text: Seq<char>, c: char, from: int, at: int)
    requires
        0 <= from <= at <= text.len(),
        forall|k: int| from <= k < at ==> text[k] != c,
        at < text.len() ==> text[at] == c,
    ensures
        scan(text, c, from) == at,
    decreases at - from,
{
    if from < at {
        lemma_scan_is_unique(text, c, from + 1, at);
    }
}

/// A file name that is read as a template is spelled by what was read from it:
/// the left text, which holds no `{`, then `{}`, the right text, which holds no
/// `.`, then `.svg` and the rest.
pub proof fn lemma_parsed_file_spells(file: Seq<char>)
    ensures
        parsed_file(file) matches Ok((rest, (left, right))) ==> {
            &&& file == left + placeholder() + right + suffix() + rest
            &&& !left.contains('{')
            &&& !right.contains('.')
        },
{
    if let Ok((rest, (left, right))) = parsed_file(file) {
        let open = scan(file, '{', 0);
        let dot = scan(file, '.', open + 2);
        lemma_scan_finds_first(file, '{', 0);
        lemma_scan_finds_first(file, '.', open + 2);
        assert(file =~= left + file.subrange(open, open + 2) + right + file.subrange(dot, dot + 4)
            + rest);
        assert forall|k: int| 0 <= k < left.len() implies left[k] != '{' by {
            assert(left[k] == file[k]);
        }
        assert forall|k: int| 0 <= k < right.len() implies right[k] != '.' by {
            assert(right[k] == file[open + 2 + k]);
        }
    }
}

/// Every name that is spelled as a template is read as one, and gives back the
/// texts that it was spelled from.
pub proof fn lemma_template_parses(left: Seq<char>, right: Seq<char>, rest: Seq<char>)
    requires
        !left.contains('{'),
        !right.contains('.'),
    ensures
        parsed_file(left + placeholder() + right + suffix() + rest) == Ok::<_, FormatError>(
            (rest, (left, right)),
        ),
{
    let file = left + placeholder() + right + suffix() + rest;
    let open = left.len() as int;
    let dot = open + 2 + right.len();
    assert forall|k: int| 0 <= k < open implies file[k] != '{' by {
        assert(file[k] == left[k]);
        assert(left.contains(left[k]));
    }
    assert(file[open] == '{');
    lemma_scan_is_unique(file, '{', 0, open);
    assert forall|k: int| open + 2 <= k < dot implies file[k] != '.' by {
        assert(file[k] == right[k - open - 2]);
        assert(right.contains(right[k - open - 2]));
    }
    assert(file[dot] == '.');
    lemma_scan_is_unique(file, '.', open + 2, dot);
    assert(file.subrange(open, open + 2) =~= placeholder());
    assert(file.subrange(dot, dot + 4) =~= suffix());
    assert(file.skip(dot + 4) =~= rest);
    assert(file.take(open) =~= left);
    assert(file.subrange(open + 2, dot) =~= right);
}

/// The characters of `text`.
fn chars_of(text: &str) -> (chars: Vec<char>)
    ensures
        chars@ == text@,
{
    let mut chars: Vec<char> = Vec::new();
    for c in each: text.chars()
        invariant
            each.seq() == text@,
            chars@ == text@.take(each.index()),
    {
        chars.push(c);
        assert(chars@ =~= text@.take(each.index() + 1));
    }
    assert(text@.take(text@.len() as int) =~= text@);
    chars
}

/// Finds the first `c` in `text` at or after `from`.
fn find(text: &Vec<char>, c: char, from: usize) -> (at: usize)
    requires
        from <= text.len(),
    ensures
        at == scan(text@, c, from as int),
        from <= at <= text.len(),
{
    let mut at = from;
    while at < text.len() && text[at] != c
        invariant
            from <= at <= text.len(),
            scan(text@, c, at as int) == scan(text@, c, from as int),
        decreases text.len() - at,
    {
        at = at + 1;
    }
    at
}

/// Whether `{}` stands in `text` from `at` on.
fn has_placeholder(text: &Vec<char>, at: usize) -> (found: bool)
    requires
        at <= text.len(),
    ensures
        found == stands_at(text@, at as int, placeholder()),
{
    let found = text.len() - at >= 2 && text[at] == '{' && text[at + 1] == '}';
    proof {
        if found {
            assert(text@.subrange(at as int, at + 2) =~= placeholder());
        } else if text.len() - at >= 2 {
            assert(text@.subrange(at as int, at + 2)[0] == text@[at as int]);
            assert(text@.subrange(at as int, at + 2)[1] == text@[at + 1]);
        }
    }
    found
}

/// Whether `.svg` stands in `text` from `at` on.
fn has_suffix(text: &Vec<char>, at: usize) -> (found: bool)
    requires
        at <= text.len(),
    ensures
        found == stands_at(text@, at as int, suffix()),
{
    let found = text.len() - at >= 4 && text[at] == '.' && text[at + 1] == 's' && text[at + 2]
        == 'v' && text[at + 3] == 'g';
    proof {
        if found {
            assert(text@.subrange(at as int, at + 4) =~= suffix());
        } else if text.len() - at >= 4 {
            assert(text@.subrange(at as int, at + 4)[0] == text@[at as int]);
            assert(text@.subrange(at as int, at + 4)[1] == text@[at + 1]);
            assert(text@.subrange(at as int, at + 4)[2] == text@[at + 2]);
            assert(text@.subrange(at as int, at + 4)[3] == text@[at + 3]);
        }
    }
    found
}

/// Reads a file name as a template of output names, such as `line_{}.svg`.
pub fn parse_file(file: &str) -> (result: Result<(&str, (&str, &str)), FormatError>)
    ensures
        match result {
            Ok((rest, (left, right))) => parsed_file(file@) == Ok::<_, FormatError>(
                (rest@, (left@, right@)),
            ),
            Err(error) => parsed_file(file@) == Err::<(Seq<char>, (Seq<char>, Seq<char>)), _>(
                error,
            ),
        },
{
    let chars = chars_of(file);
    let open = find(&chars, '{', 0);
    if !has_placeholder(&chars, open) {
        return Err(FormatError::NoPlaceholder);
    }
    let dot = find(&chars, '.', open + 2);
    if !has_suffix(&chars, dot) {
        return Err(FormatError::NoSuffix);
    }
    let left = file.substring_char(0, open);
    let right = file.substring_char(open + 2, dot);
    let rest = file.substring_char(dot + 4, chars.len());
    Ok((rest, (left, right)))
}

/// The two texts that the names of the output files are built round.
#[derive(Clone, Debug, PartialEq, Eq)]
pub struct FormatString {
    pub left: String,
    pub right: String,
}

impl Default for FormatString {
    /// The template of the plain names `0.svg`, `1.svg`, and so on.
    fn default() -> (format: FormatString)
        ensures
            format.left@ == Seq::<char>::empty(),
            format.right@ == Seq::<char>::empty(),
    {
        FormatString { left: String::new(), right: String::new() }
    }
}

impl FormatString {
    /// The name of the file for the line `index`: the number between the two
    /// texts, then `.svg`.
    pub fn index(&self, index: usize) -> (name: String)
        ensures
            name@ == self.left@ + natural_text(index as nat) + self.right@ + suffix(),
    {
        proof {
            reveal_strlit(".svg");
        }
        let mut name = String::new();
        name.append(self.left.as_str());
        push_natural(&mut name, index as u128);
        name.append(self.right.as_str());
        name.append(".svg");
        name
    }
}

/// Why an output path cannot be used.
#[derive(Clone, Debug, PartialEq, Eq)]
pub enum OutputError {
    /// The path ends in `.svg` but has no last component.
    NoName,
    /// The last component ends in `.svg` but is no template.
    BadFormat,
    /// The path ends in an extension other than `svg`, which is carried along.
    InvalidType(String),
    /// The path's extension is not valid UTF-8.
    ExtensionNotUtf8,
}

impl OutputError {
    /// The error in words.
    pub fn message(&self) -> (text: String)
        ensures
            text@ == match *self {
                OutputError::NoName => "Path has no name."@,
                OutputError::BadFormat => "output not formatted correctly."@,
                OutputError::InvalidType(extension) => extension@ + " is not a valid output type."@,
                OutputError::ExtensionNotUtf8 => "extention is not utf8 formatted."@,
            },
    {
        match self {
            OutputError::NoName => "Path has no name.".to_owned(),
            OutputError::BadFormat => "output not formatted correctly.".to_owned(),
            OutputError::InvalidType(extension) => {
                let mut text = extension.clone();
                text.append(" is not a valid output type.");
                text
            },
            OutputError::ExtensionNotUtf8 => "extention is not utf8 formatted.".to_owned(),
        }
    }
}

/// How the output files are named, and where they go.
#[derive(Clone, Debug, PartialEq, Eq)]
pub struct OutputPlan {
    /// The template of the file names.
    pub format: FormatString,
    /// Whether the files go beside the path's last component, which was the
    /// template, and not into the path itself.
    pub beside: bool,
}

/// Whether `extension` is `svg`.
fn is_svg(extension: &str) -> (svg: bool)
    ensures
        svg == (extension@ == seq!['s', 'v', 'g']),
{
    let chars = chars_of(extension);
    let svg = chars.len() == 3 && chars[0] == 's' && chars[1] == 'v' && chars[2] == 'g';
    proof {
        if svg {
            assert(extension@ =~= seq!['s', 'v', 'g']);
        }
    }
    svg
}

/// Decides from the last component of an output path how the files are named.
/// `extension` is the component's extension: `None` where it has none, `Some(None)`
/// where it is not valid UTF-8. Without an extension the path is the directory,
/// and the files are numbered plainly. With `svg` the component `file_name` is a
/// template, and the files go into the directory that holds it. Any other
/// extension is an error.
pub fn plan_output(extension: Option<Option<&str>>, file_name: Option<&str>) -> (plan: Result<
    OutputPlan,
    OutputError,
>)
    ensures
        match extension {
            None => plan matches Ok(chosen) && !chosen.beside && chosen.format.left@.len() == 0
                && chosen.format.right@.len() == 0,
            Some(None) => plan == Err::<OutputPlan, _>(OutputError::ExtensionNotUtf8),
            Some(Some(other)) if other@ != seq!['s', 'v', 'g'] => plan matches Err(
                OutputError::InvalidType(carried),
            ) && carried@ == other@,
            Some(Some(_)) => match file_name {
                None => plan == Err::<OutputPlan, _>(OutputError::NoName),
                Some(name) => match parsed_file(name@) {
                    Ok((_, (left, right))) => plan matches Ok(chosen) && chosen.beside
                        && chosen.format.left@ == left && chosen.format.right@ == right,
                    Err(_) => plan == Err::<OutputPlan, _>(OutputError::BadFormat),
                },
            },
        },
{
    match extension {
        None => Ok(OutputPlan { format: FormatString::default(), beside: false }),
        Some(None) => Err(OutputError::ExtensionNotUtf8),
        Some(Some(other)) => {
            if !is_svg(other) {
                return Err(OutputError::InvalidType(other.to_owned()));
            }
            match file_name {
                None => Err(OutputError::NoName),
                Some(name) => match parse_file(name) {
                    Ok((_, (left, right))) => Ok(
                        OutputPlan {
                            format: FormatString { left: left.to_owned(), right: right.to_owned() },
                            beside: true,
                        },
                    ),
                    Err(_) => Err(OutputError::BadFormat),
                },
            }
        },
    }
}

} // verus!
