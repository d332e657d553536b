//! What is decided of a text before it joins the corpus: whether its file is
//! wanted, and which of its lines are left out of the comparison.

use vstd::prelude::*;
use vstd::string::StringExecFns;
use vstd::std_specs::iter::IteratorSpec;
use crate::cli::Cli;
use crate::{corpus, File, Text};

verus! {

/// `regex::Regex`, a compiled regular expression: carried, never looked into.
#[verifier::external_type_specification]
#[verifier::external_body]
pub struct ExRegex(regex::Regex);

/// `regex::Error`, why a text was refused as a regular expression: carried,
/// never looked into.
#[verifier::external_type_specification]
#[verifier::external_body]
pub struct ExRegexError(regex::Error);

/// `String::push` appends one character to the end of the string.
pub assume_specification[ String::push ](text: &mut String, ch: char)
    ensures
        final(text)@ == old(text)@.push(ch),
;

/// Whether the regular expression written as `pattern` matches anywhere in
/// `haystack`: what `regex::Regex::is_match` returns for them.
pub uninterp spec fn regex_is_match(pattern: Seq<char>, haystack: Seq<char>) -> bool;

/// A regular expression by which lines are left out, compiled once.
pub struct SkipPattern {
    source: String,
    regex: regex::Regex,
}

/// Calls `regex::Regex::new` and keeps the compiled expression together
/// with the text it was compiled from. Trusted: that the text kept is the
/// text given. When the text compiles is left open: it has to be a valid
/// expression, and small enough once compiled.
#[verifier::external_body]
fn compile(source: &str) -> (r: Result<SkipPattern, regex::Error>)
    ensures
        r matches Ok(pattern) ==> pattern.text() == source@,
{
    match regex::Regex::new(source) {
        Ok(regex) => Ok(SkipPattern { source: source.to_owned(), regex }),
        Err(error) => Err(error),
    }
}

/// Calls `regex::Regex::is_match`. Trusted: that the answer is a function
/// of the expression's text and the line alone, namely whether the
/// expression matches anywhere in the line.
#[verifier::external_body]
fn is_match(pattern: &SkipPattern, line: &str) -> (matched: bool)
    ensures
        matched == regex_is_match(pattern.text(), line@),
{
    pattern.regex.is_match(line)
}

impl SkipPattern {
    /// The text that the expression was compiled from.
    pub closed spec fn text(self) -> Seq<char> {
        self.source@
    }

    /// Compiles a regular expression, or gives nothing where the text is
    /// refused as one.
    pub fn new(source: &str) -> (r: Option<SkipPattern>)
        ensures
            r matches Some(pattern) ==> pattern.text() == source@,
    {
        match compile(source) {
            Ok(pattern) => Some(pattern),
            Err(_) => None,
        }
    }

    /// The text that the expression was compiled from.
    pub fn as_str(&self) -> (source: &str)
        ensures
            source@ == self.text(),
    {
        self.source.as_str()
    }

    /// Whether the expression matches anywhere in the line.
    pub fn matches(&self, line: &str) -> (matched: bool)
        ensures
            matched == regex_is_match(self.text(), line@),
    {
        is_match(self, line)
    }
}

/// The texts of a list of expressions.
pub open spec fn texts(regexes: Seq<SkipPattern>) -> Seq<Seq<char>> {
    regexes.map_values(|pattern: SkipPattern| pattern.text())
}

/// Whether any of the expressions matches the line.
pub open spec fn matches_any(patterns: Seq<Seq<char>>, line: Seq<char>) -> bool {
    exists|i: int| 0 <= i < patterns.len() && regex_is_match(#[trigger] patterns[i], line)
}

/// The number of characters of `text` before its first line feed, or its
/// length if it holds none.
pub open spec fn line_length(text: Seq<char>) -> nat
    decreases text.len(),
{
    if text.len() == 0 || text[0] == '\n' {
        0
    } else {
        1 + line_length(text.skip(1))
    }
}

/// A line without the carriage return that stood before its line feed.
pub open spec fn without_return(line: Seq<char>) -> Seq<char> {
    if line.len() > 0 && line.last() == '\r' {
        line.drop_last()
    } else {
        line
    }
}

/// The lines of a text. A line ends at a line feed, or at a carriage return
/// directly followed by one, and holds neither; the last line needs no
/// ending, and a text that ends with a line ending has no empty line after
/// it.
pub open spec fn lines(text: Seq<char>) -> Seq<Seq<char>>
    decreases text.len(),
{
    if text.len() == 0 {
        Seq::empty()
    } else {
        let length = line_length(text);
        if length >= text.len() {
            seq![text]
        } else {
            seq![without_return(text.take(length as int))] + lines(text.skip(length as int + 1))
        }
    }
}

/// The lines that none of the expressions matches, in their order.
pub open spec fn kept(lines: Seq<Seq<char>>, patterns: Seq<Seq<char>>) -> Seq<Seq<char>>
    decreases lines.len(),
{
    if lines.len() == 0 {
        Seq::empty()
    } else if matches_any(patterns, lines.last()) {
        kept(lines.drop_last(), patterns)
    } else {
        kept(lines.drop_last(), patterns).push(lines.last())
    }
}

/// Lines joined by single line feeds, with none after the last.
pub open spec fn joined(lines: Seq<Seq<char>>) -> Seq<char>
    decreases lines.len(),
{
    if lines.len() == 0 {
        Seq::empty()
    } else if lines.len() == 1 {
        lines[0]
    } else {
        joined(lines.drop_last()).push('\n') + lines.last()
    }
}

/// A text without the lines that any of the expressions matches.
pub open spec fn stripped(text: Seq<char>, patterns: Seq<Seq<char>>) -> Seq<char> {
    joined(kept(lines(text), patterns))
}

proof fn lemma_line_length(text: Seq<char>, length: int)
    requires
        0 <= length <= text.len(),
        forall|k: int| 0 <= k < length ==> text[k] != '\n',
        length == text.len() || text[length] == '\n',
    ensures
        line_length(text) == length,
    decreases length,
{
    if length > 0 {
        lemma_line_length(text.skip(1), length - 1);
    }
}

/// The characters of a text.
fn chars_of(text: &str) -> (chars: Vec<char>)
    ensures
        chars@ == text@,
{
    let mut chars: Vec<char> = Vec::new();
    let mut rest = text.chars();
    loop
        invariant
            chars@ + rest.remaining() == text@,
            rest.obeys_prophetic_iter_laws(),
            rest.decrease() is Some,
        ensures
            chars@ == text@,
        decreases rest.decrease()->0,
    {
        let ghost before = rest.remaining();
        match rest.next() {
            Some(ch) => {
                chars.push(ch);
                assert(chars@ + rest.remaining() =~= text@);
            },
            None => {
                assert(chars@ =~= text@);
                break ;
            },
        }
    }
    chars
}

/// Whether any of the expressions matches the line.
fn any_matches(regexes: &Vec<SkipPattern>, line: &str) -> (matched: bool)
    ensures
        matched == matches_any(texts(regexes@), line@),
{
    let mut i: usize = 0;
    while i < regexes.len()
        invariant
            i <= regexes.len(),
            forall|k: int| 0 <= k < i ==> !regex_is_match(#[trigger] texts(regexes@)[k], line@),
        decreases regexes.len() - i,
    {
        if regexes[i].matches(line) {
            assert(regex_is_match(texts(regexes@)[i as int], line@));
            return true;
        }
        i = i + 1;
    }
    false
}

/// Removes from a text every line that any of the expressions matches, and
/// joins the lines that are left by line feeds.
pub fn strip_lines(text: &str, regexes: &Vec<SkipPattern>) -> (result: String)
    ensures
        result@ == stripped(text@, texts(regexes@)),
{
    let chars = chars_of(text);
    let mut result = String::new();
    let mut written: bool = false;
    let mut from: usize = 0;
    let ghost mut done: Seq<Seq<char>> = Seq::empty();
    assert(text@.skip(0) =~= text@);
    while from < chars.len()
        invariant
            chars@ == text@,
            from <= chars.len(),
            done + lines(text@.skip(from as int)) == lines(text@),
            result@ == joined(kept(done, texts(regexes@))),
            written == (kept(done, texts(regexes@)).len() > 0),
        decreases chars.len() - from,
    {
        let ghost rest = text@.skip(from as int);
        let mut end: usize = from;
        while end < chars.len() && chars[end] != '\n'
            invariant
                from <= end <= chars.len(),
                forall|k: int| from <= k < end ==> chars@[k] != '\n',
            decreases chars.len() - end,
        {
            end = end + 1;
        }
        proof {
            lemma_line_length(rest, end - from);
        }
        let terminated: bool = end < chars.len();
        let stop: usize = if terminated && end > from && chars[end - 1] == '\r' {
            end - 1
        } else {
            end
        };
        let mut line = String::new();
        let mut at: usize = from;
        while at < stop
            invariant
                from <= at <= stop <= chars.len(),
                line@ == chars@.subrange(from as int, at as int),
            decreases stop - at,
        {
            line.push(chars[at]);
            at = at + 1;
            assert(line@ =~= chars@.subrange(from as int, at as int));
        }
        let next: usize = if terminated {
            end + 1
        } else {
            end
        };
        proof {
            let length = line_length(rest);
            assert(rest.len() > 0);
            if terminated {
                assert(rest.take(length as int) =~= chars@.subrange(from as int, end as int));
                assert(rest.skip(length as int + 1) =~= text@.skip(next as int));
                assert(line@ =~= without_return(rest.take(length as int)));
            } else {
                assert(line@ =~= rest);
                assert(text@.skip(next as int) =~= Seq::<char>::empty());
            }
            assert(lines(rest) =~= seq![line@] + lines(text@.skip(next as int)));
            let extended = done.push(line@);
            assert(extended + lines(text@.skip(next as int)) =~= done + lines(rest));
            assert(extended.drop_last() =~= done);
            done = extended;
        }
        let ghost earlier = kept(done.drop_last(), texts(regexes@));
        assert(done.last() == line@);
        if !any_matches(regexes, line.as_str()) {
            if written {
                result.push('\n');
            }
            result.append(line.as_str());
            written = true;
            proof {
                let now = kept(done, texts(regexes@));
                assert(now == earlier.push(line@));
                assert(now.drop_last() =~= earlier);
                assert(now.last() == line@);
                assert(result@ =~= joined(now));
            }
        }
        from = next;
    }
    assert(done =~= lines(text@));
    result
}

/// What the filters read of a path: the name of the file and its
/// extension, where it has them.
pub struct PathParts {
    pub file_name: Option<String>,
    pub extension: Option<String>,
}

/// Whether a name is there and stands in the list.
pub open spec fn listed(list: Seq<String>, name: Option<String>) -> bool {
    name matches Some(name) && exists|i: int| 0 <= i < list.len() && (#[trigger] list[i])@ == name@
}

/// Whether a file is wanted. Where file names are required, a file is
/// wanted for its name or, failing that, for a required extension.
/// Elsewhere a file of an ignored name is not wanted; any other is wanted
/// for a required extension where extensions are required, and unless its
/// extension is ignored where they are not.
pub open spec fn is_wanted(parts: PathParts, options: Cli) -> bool {
    if options.require_file.len() > 0 {
        listed(options.require_file@, parts.file_name) || listed(
            options.require_ext@,
            parts.extension,
        )
    } else {
        !listed(options.ignore_file@, parts.file_name) && if options.require_ext.len() > 0 {
            listed(options.require_ext@, parts.extension)
        } else {
            !listed(options.ignore_ext@, parts.extension)
        }
    }
}

/// Whether a name is there and stands in the list.
fn contains(list: &Vec<String>, candidate: &Option<String>) -> (found: bool)
    ensures
        found == listed(list@, *candidate),
{
    match candidate {
        Some(name) => {
            let mut i: usize = 0;
            while i < list.len()
                invariant
                    i <= list.len(),
                    *candidate == Some(*name),
                    forall|k: int| 0 <= k < i ==> (#[trigger] list@[k])@ != name@,
                decreases list.len() - i,
            {
                if list[i] == *name {
                    assert(list@[i as int]@ == name@);
                    return true;
                }
                i = i + 1;
            }
            false
        },
        None => false,
    }
}

/// Whether the file has one of the required names.
pub fn required_file_name(parts: &PathParts, options: &Cli) -> (found: bool)
    ensures
        found == listed(options.require_file@, parts.file_name),
{
    contains(&options.require_file, &parts.file_name)
}

/// Whether the file has one of the required extensions.
pub fn required_extension(parts: &PathParts, options: &Cli) -> (found: bool)
    ensures
        found == listed(options.require_ext@, parts.extension),
{
    contains(&options.require_ext, &parts.extension)
}

/// Whether the file has one of the ignored names.
pub fn ignored_file_name(parts: &PathParts, options: &Cli) -> (found: bool)
    ensures
        found == listed(options.ignore_file@, parts.file_name),
{
    contains(&options.ignore_file, &parts.file_name)
}

/// Whether the file has one of the ignored extensions.
pub fn ignored_extension(parts: &PathParts, options: &Cli) -> (found: bool)
    ensures
        found == listed(options.ignore_ext@, parts.extension),
{
    contains(&options.ignore_ext, &parts.extension)
}

/// Decides whether a file joins the corpus, by the names and extensions
/// that the options require and ignore.
pub fn wanted(parts: &PathParts, options: &Cli) -> (included: bool)
    ensures
        included == is_wanted(*parts, *options),
{
    if !options.require_file.is_empty() {
        if !options.require_ext.is_empty() {
            required_file_name(parts, options) || required_extension(parts, options)
        } else {
            required_file_name(parts, options)
        }
    } else if !options.ignore_file.is_empty() {
        if !options.require_ext.is_empty() {
            required_extension(parts, options) && !ignored_file_name(parts, options)
        } else if !options.ignore_ext.is_empty() {
            !ignored_file_name(parts, options) && !ignored_extension(parts, options)
        } else {
            !ignored_file_name(parts, options)
        }
    } else if !options.require_ext.is_empty() {
        required_extension(parts, options)
    } else if !options.ignore_ext.is_empty() {
        !ignored_extension(parts, options)
    } else {
        true
    }
}

/// The content that a text joins the corpus with: as it was loaded where no
/// expression is set, without the matching lines where any is.
pub open spec fn prepared(content: Seq<char>, patterns: Seq<Seq<char>>) -> Seq<char> {
    if patterns.len() == 0 {
        content
    } else {
        stripped(content, patterns)
    }
}

/// The corpus that the loaded texts make: each under its path, with its
/// prepared content.
pub open spec fn prepared_corpus(loaded: Seq<Text>, patterns: Seq<Seq<char>>) -> Seq<Text> {
    loaded.map_values(
        |text: Text| Text { path: text.path, content: prepared(text.content, patterns) },
    )
}

/// Prepares the loaded texts for the comparison: leaves out of each the
/// lines that the options tell to skip.
pub fn files(loaded: Vec<File>, options: &Cli) -> (prepared: Vec<File>)
    ensures
        prepared.len() == loaded.len(),
        corpus(prepared@) == prepared_corpus(corpus(loaded@), texts(options.skip_lines@)),
{
    if options.skip_lines.is_empty() {
        assert(texts(options.skip_lines@).len() == 0);
        assert(corpus(loaded@) =~= prepared_corpus(
            corpus(loaded@),
            texts(options.skip_lines@),
        ));
        return loaded;
    }
    let mut prepared: Vec<File> = Vec::new();
    let mut i: usize = 0;
    while i < loaded.len()
        invariant
            i <= loaded.len(),
            prepared.len() == i,
            options.skip_lines.len() > 0,
            forall|k: int|
                0 <= k < i ==> (#[trigger] prepared[k]).path@ == loaded[k].path@
                    && prepared[k].content@ == stripped(
                    loaded[k].content@,
                    texts(options.skip_lines@),
                ),
        decreases loaded.len() - i,
    {
        let content = strip_lines(loaded[i].content.as_str(), &options.skip_lines);
        prepared.push(File { path: loaded[i].path.clone(), content });
        i = i + 1;
    }
    assert(texts(options.skip_lines@).len() > 0);
    assert(corpus(prepared@) =~= prepared_corpus(corpus(loaded@), texts(options.skip_lines@)));
    prepared
}

} // verus!
