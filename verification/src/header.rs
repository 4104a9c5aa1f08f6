//! The header line of a fenced code block: `language` or `language-filename`.
use vstd::prelude::*;

verus! {

/// The separator between language and filename.
pub const DASH: char = '-';

/// What the opening line of a code block says about the block.
#[derive(Clone, Debug, PartialEq, Eq)]
pub struct Header {
    /// The text before the first dash, or the whole line if there is none.
    pub language: String,
    /// The text after the first dash, if the line has one.
    pub filename: Option<String>,
}

/// The mathematical value of a [`Header`].
pub struct HeaderView {
    pub language: Seq<char>,
    pub filename: Option<Seq<char>>,
}

impl View for Header {
    type V = HeaderView;

    open spec fn view(&self) -> HeaderView {
        HeaderView {
            language: self.language@,
            filename: match self.filename {
                Some(f) => Some(f@),
                None => None,
            },
        }
    }
}

impl HeaderView {
    /// The header line that parses to this header.
    pub open spec fn line(self) -> Seq<char> {
        match self.filename {
            Some(f) => self.language + seq![DASH] + f,
            None => self.language,
        }
    }
}

/// The header that a line stands for: the line is cut at its first dash.
pub open spec fn header_of(line: Seq<char>) -> HeaderView {
    match line.index_of_first(DASH) {
        Some(i) => HeaderView { language: line.take(i), filename: Some(line.skip(i + 1)) },
        None => HeaderView { language: line, filename: None },
    }
}

/// Parses a header line. The line is split at its first dash: what stands
/// before it is the language, what stands after it the filename. A line
/// without a dash names a language only.
pub fn parse_header(line: &str) -> (header: Header)
    ensures
        header@ == header_of(line@),
{
    let mut language = String::new();
    let mut filename = String::new();
    let mut found = false;
    let ghost mut cut: int = 0;
    for c in it: line.chars()
        invariant
            it.seq() == line@,
            !found ==> language@ == line@.take(it.index() as int) && filename@.len() == 0,
            !found ==> forall|j: int| 0 <= j < it.index() ==> line@[j] != DASH,
            found ==> 0 <= cut < it.index() && line@[cut] == DASH && language@ == line@.take(cut)
                && filename@ == line@.subrange(cut + 1, it.index() as int),
            found ==> forall|j: int| 0 <= j < cut ==> line@[j] != DASH,
    {
        let ghost i = it.index() as int;
        if found {
            filename.push(c);
            assert(filename@ =~= line@.subrange(cut + 1, i + 1));
        } else if c == DASH {
            found = true;
            proof {
                cut = i;
                assert(filename@ =~= line@.subrange(cut + 1, i + 1));
            }
        } else {
            language.push(c);
            assert(language@ =~= line@.take(i + 1));
        }
    }
    proof {
        let n = line@.len() as int;
        assert(line@.take(n) =~= line@);
        line@.index_of_first_ensures(DASH);
        if found {
            assert(line@.contains(DASH));
            assert(line@.index_of_first(DASH) == Some(cut));
            assert(filename@ =~= line@.skip(cut + 1));
        } else {
            assert(!line@.contains(DASH));
        }
    }
    Header { language, filename: if found { Some(filename) } else { None } }
}

/// Cutting a line at its first dash loses nothing: the header's line is the
/// line it was parsed from.
pub proof fn lemma_header_line_round_trip(line: Seq<char>)
    ensures
        header_of(line).line() == line,
{
    line.index_of_first_ensures(DASH);
    match line.index_of_first(DASH) {
        Some(i) => {
            assert(line.take(i) + seq![DASH] + line.skip(i + 1) =~= line);
        },
        None => {},
    }
}

/// The language of a parsed header holds no dash, and the header has a
/// filename exactly when the line holds a dash.
pub proof fn lemma_header_language_has_no_dash(line: Seq<char>)
    ensures
        !header_of(line).language.contains(DASH),
        header_of(line).filename is Some <==> line.contains(DASH),
{
    line.index_of_first_ensures(DASH);
    match line.index_of_first(DASH) {
        Some(i) => {
            if line.take(i).contains(DASH) {
                let j = choose|j: int| 0 <= j < line.take(i).len() && line.take(i)[j] == DASH;
                assert(line[j] == DASH);
            }
        },
        None => {},
    }
}

} // verus!
