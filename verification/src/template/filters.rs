//! Filters that templates use.
use vstd::prelude::*;
use crate::template::config::CaseConvention;
use crate::template::testers::{LevelOf, LevelOfView};
use crate::text::same_text;
use crate::text_map::TextMap;

verus! {

/// Case converter filter.
pub struct CaseConverter {
    /// The name of the filter.
    pub filter_name: &'static str,
    /// The case convention the filter converts to.
    pub case: CaseConvention,
}

impl CaseConverter {
    /// Create a new case converter filter.
    pub fn new(case: CaseConvention, filter_name: &'static str) -> (r: Self)
        ensures
            r.case == case,
            r.filter_name == filter_name,
    {
        CaseConverter { filter_name, case }
    }

    /// Writes a text in the case convention of the filter.
    pub fn convert(&self, text: &str) -> (r: String)
        ensures
            r@ == converted(self.case, text@),
    {
        convert_case(self.case, text)
    }
}

/// The name of an instrument in generated code: `counter`, `gauge` and
/// `histogram` keep their names, `updowncounter` is `up_down_counter`; any
/// other is an error.
pub open spec fn instrument_name(metric_type: Seq<char>) -> Result<Seq<char>, Seq<char>> {
    if metric_type == "counter"@ || metric_type == "gauge"@ || metric_type == "histogram"@ {
        Ok(metric_type)
    } else if metric_type == "updowncounter"@ {
        Ok("up_down_counter"@)
    } else {
        Err("Filter instrument: unknown metric instrument "@ + metric_type)
    }
}

/// Filter to normalize instrument name.
pub fn instrument(metric_type: &String) -> (r: Result<String, String>)
    ensures
        match instrument_name(metric_type@) {
            Ok(n) => r matches Ok(x) && x@ == n,
            Err(e) => r matches Err(x) && x@ == e,
        },
{
    if same_text(metric_type, "counter") || same_text(metric_type, "gauge") || same_text(metric_type, "histogram") {
        Ok(metric_type.clone())
    } else if same_text(metric_type, "updowncounter") {
        Ok("up_down_counter".to_owned())
    } else {
        let mut error = "Filter instrument: unknown metric instrument ".to_owned();
        error.append(metric_type.as_str());
        Err(error)
    }
}

/// Whether the `required` filter keeps a value: an attribute is kept when
/// its requirement level is `required`; a value that is not an object is
/// kept.
pub open spec fn keeps_required(v: LevelOfView) -> bool {
    match v {
        LevelOfView::Level(l) => l == "required"@,
        LevelOfView::NoLevel => false,
        _ => true,
    }
}

/// Whether the `not_required` filter keeps a value: an attribute is kept
/// unless its requirement level is `required`.
pub open spec fn keeps_not_required(v: LevelOfView) -> bool {
    match v {
        LevelOfView::Level(l) => l != "required"@,
        _ => true,
    }
}

/// The positions of the values that a filter keeps, in order.
pub open spec fn kept(s: Seq<LevelOfView>, keep: spec_fn(LevelOfView) -> bool) -> Seq<int>
    decreases s.len(),
{
    if s.len() == 0 {
        Seq::empty()
    } else if keep(s.last()) {
        kept(s.drop_last(), keep).push(s.len() - 1)
    } else {
        kept(s.drop_last(), keep)
    }
}

/// The contents of a sequence of values read by a filter.
pub open spec fn levels_view(s: Seq<LevelOf>) -> Seq<LevelOfView> {
    s.map_values(|v: LevelOf| v@)
}

/// The positions of the values that a requirement filter keeps.
fn keep_positions(values: &[LevelOf], required_ones: bool) -> (r: Vec<usize>)
    ensures
        r@.map_values(|i: usize| i as int) == kept(
            levels_view(values@),
            if required_ones {
                |v: LevelOfView| keeps_required(v)
            } else {
                |v: LevelOfView| keeps_not_required(v)
            },
        ),
{
    let ghost keep = if required_ones {
        |v: LevelOfView| keeps_required(v)
    } else {
        |v: LevelOfView| keeps_not_required(v)
    };
    let ghost s = levels_view(values@);
    let mut out: Vec<usize> = Vec::new();
    let mut i: usize = 0;
    proof {
        assert(s.subrange(0, 0) =~= Seq::<LevelOfView>::empty());
        assert(out@.map_values(|i: usize| i as int) =~= kept(s.subrange(0, 0), keep));
    }
    while i < values.len()
        invariant
            i <= values@.len(),
            s == levels_view(values@),
            keep == (if required_ones {
                |v: LevelOfView| keeps_required(v)
            } else {
                |v: LevelOfView| keeps_not_required(v)
            }),
            out@.map_values(|i: usize| i as int) == kept(s.subrange(0, i as int), keep),
        decreases values@.len() - i,
    {
        proof {
            assert(s.subrange(0, i + 1).drop_last() =~= s.subrange(0, i as int));
            assert(s.subrange(0, i + 1).last() == values@[i as int]@);
        }
        let keep_it = match &values[i] {
            LevelOf::Level(req_level) => if required_ones {
                same_text(req_level, "required")
            } else {
                !same_text(req_level, "required")
            },
            LevelOf::NoLevel => !required_ones,
            _ => true,
        };
        if keep_it {
            let ghost before = out@.map_values(|i: usize| i as int);
            out.push(i);
            proof {
                assert(out@.map_values(|i: usize| i as int) =~= before.push(i as int));
            }
        }
        i = i + 1;
    }
    proof {
        assert(s.subrange(0, i as int) == s);
    }
    out
}

/// Filter out the attributes that are not required: the positions of the
/// values kept, in order.
pub fn required(values: &[LevelOf]) -> (r: Vec<usize>)
    ensures
        r@.map_values(|i: usize| i as int) == kept(levels_view(values@), |v: LevelOfView| keeps_required(v)),
{
    keep_positions(values, true)
}

/// Filter out the attributes that are required: the positions of the
/// values kept, in order.
pub fn not_required(values: &[LevelOf]) -> (r: Vec<usize>)
    ensures
        r@.map_values(|i: usize| i as int) == kept(levels_view(values@), |v: LevelOfView| keeps_not_required(v)),
{
    keep_positions(values, false)
}

/// Filter to map an OpenTelemetry type to a language type.
pub struct TypeMapping {
    /// The language type of each OpenTelemetry type.
    pub type_mapping: TextMap,
}

/// The language type of an OpenTelemetry type, or the error that reports
/// that the mapping has none.
pub open spec fn mapped_type(mapping: Map<Seq<char>, Seq<char>>, otel_type: Seq<char>) -> Result<
    Seq<char>,
    Seq<char>,
> {
    if mapping.contains_key(otel_type) {
        Ok(mapping[otel_type])
    } else {
        Err(
            "Filter type_mapping: could not find a conversion for "@ + otel_type
                + ". To resolve this, create or extend the type_mapping in the config.yaml file."@,
        )
    }
}

impl TypeMapping {
    /// Map an OpenTelemetry type to a language type.
    pub fn map_type(&self, otel_type: &String) -> (r: Result<String, String>)
        ensures
            match mapped_type(self.type_mapping@, otel_type@) {
                Ok(t) => r matches Ok(x) && x@ == t,
                Err(e) => r matches Err(x) && x@ == e,
            },
    {
        match self.type_mapping.get(otel_type.as_str()) {
            Some(language_type) => Ok(language_type.clone()),
            None => {
                let mut error = "Filter type_mapping: could not find a conversion for ".to_owned();
                error.append(otel_type.as_str());
                error.append(
                    ". To resolve this, create or extend the type_mapping in the config.yaml file.",
                );
                Err(error)
            },
        }
    }
}

/// Whether a character is whitespace by the Unicode property White_Space,
/// which `str::trim_end` removes.
pub open spec fn is_white_space(c: char) -> bool {
    let u = c as u32;
    ||| 0x9 <= u <= 0xD
    ||| u == 0x20 || u == 0x85 || u == 0xA0 || u == 0x1680
    ||| 0x2000 <= u <= 0x200A
    ||| u == 0x2028 || u == 0x2029 || u == 0x202F || u == 0x205F || u == 0x3000
}

/// The length of a text without its trailing whitespace.
pub open spec fn trimmed_end_len(s: Seq<char>) -> nat
    decreases s.len(),
{
    if s.len() == 0 {
        0
    } else if is_white_space(s.last()) {
        trimmed_end_len(s.drop_last())
    } else {
        s.len()
    }
}

/// What `str::trim_end` gives: the text without its trailing whitespace.
pub open spec fn trim_end(s: Seq<char>) -> Seq<char> {
    s.subrange(0, trimmed_end_len(s) as int)
}

/// Whether a character is whitespace by the Unicode property White_Space.
fn is_white_space_char(c: char) -> (r: bool)
    ensures
        r == is_white_space(c),
{
    let u = c as u32;
    (0x9 <= u && u <= 0xD) || u == 0x20 || u == 0x85 || u == 0xA0 || u == 0x1680 || (0x2000 <= u && u
        <= 0x200A) || u == 0x2028 || u == 0x2029 || u == 0x202F || u == 0x205F || u == 0x3000
}

/// The text without its trailing whitespace, as `str::trim_end` gives it.
fn trim_end_text(s: &str) -> (r: String)
    ensures
        r@ == trim_end(s@),
{
    let mut end = s.unicode_len();
    proof {
        assert(s@.subrange(0, end as int) =~= s@);
    }
    loop
        invariant
            end <= s@.len(),
            trimmed_end_len(s@) == trimmed_end_len(s@.subrange(0, end as int)),
        ensures
            end <= s@.len(),
            trimmed_end_len(s@) == trimmed_end_len(s@.subrange(0, end as int)),
            end == 0 || !is_white_space(s@[end - 1]),
        decreases end,
    {
        if end == 0 {
            break;
        }
        let c = s.get_char(end - 1);
        if !is_white_space_char(c) {
            break;
        }
        proof {
            let t = s@.subrange(0, end as int);
            assert(t.drop_last() =~= s@.subrange(0, end - 1));
            assert(t.last() == c);
        }
        end = end - 1;
    }
    proof {
        let t = s@.subrange(0, end as int);
        if end > 0 {
            assert(t.last() == s@[end - 1]);
        }
        assert(trimmed_end_len(t) == end);
    }
    s.substring_char(0, end).to_owned()
}

/// What `textwrap::wrap` gives: the lines of a text wrapped at a width.
pub uninterp spec fn text_wrap(text: Seq<char>, width: usize) -> Seq<Seq<char>>;

/// Wraps a text at a width with `textwrap::wrap`. The contract claims only
/// that the lines are a function of the text and the width, as `text_wrap`
/// names them.
#[verifier::external_body]
fn wrap_text(text: &str, width: usize) -> (r: Vec<String>)
    ensures
        r@.map_values(|l: String| l@) == text_wrap(text@, width),
{
    textwrap::wrap(text, textwrap::Options::new(width)).into_iter().map(|l| l.into_owned()).collect()
}

/// What `char::to_uppercase` gives for a character.
pub uninterp spec fn char_upper(c: char) -> Seq<char>;

/// The uppercase form of a character, by `char::to_uppercase`. The
/// contract claims only that it is a function of the character, as
/// `char_upper` names it.
#[verifier::external_body]
fn uppercase_char(c: char) -> (r: String)
    ensures
        r@ == char_upper(c),
{
    c.to_uppercase().collect::<String>()
}

/// A text whose first character is in uppercase.
pub open spec fn with_upper_first(s: Seq<char>) -> Seq<char> {
    if s.len() == 0 {
        Seq::empty()
    } else {
        char_upper(s[0]) + s.drop_first()
    }
}

/// Makes the first character of a text uppercase.
pub fn uppercase_first_letter(s: &str) -> (r: String)
    ensures
        r@ == with_upper_first(s@),
{
    let n = s.unicode_len();
    if n == 0 {
        String::new()
    } else {
        let mut out = uppercase_char(s.get_char(0));
        let rest = s.substring_char(1, n);
        out.append(rest);
        proof {
            assert(rest@ =~= s@.drop_first());
        }
        out
    }
}

/// What `char::to_lowercase` gives for a character.
pub uninterp spec fn char_lower(c: char) -> Seq<char>;

/// The lowercase form of a character, by `char::to_lowercase`. The
/// contract claims only that it is a function of the character, as
/// `char_lower` names it.
#[verifier::external_body]
fn lowercase_char(c: char) -> (r: String)
    ensures
        r@ == char_lower(c),
{
    c.to_lowercase().collect::<String>()
}

/// Whether a character separates words: `_`, `-`, a space or a dot.
pub open spec fn is_separator(c: char) -> bool {
    c == '_' || c == '-' || c == ' ' || c == '.'
}

/// Whether a character is an ASCII uppercase letter.
pub open spec fn is_ascii_upper(c: char) -> bool {
    'A' <= c <= 'Z'
}

/// Whether a character is an ASCII lowercase letter or digit: after one,
/// an uppercase letter starts a new word.
pub open spec fn is_ascii_small(c: char) -> bool {
    ('a' <= c <= 'z') || ('0' <= c <= '9')
}

/// The text between two words of a case convention.
pub open spec fn delimiter(case: CaseConvention) -> Seq<char> {
    match case {
        CaseConvention::LowerCase | CaseConvention::UpperCase | CaseConvention::TitleCase => " "@,
        CaseConvention::PascalCase | CaseConvention::CamelCase => ""@,
        CaseConvention::SnakeCase | CaseConvention::ScreamingSnakeCase => "_"@,
        CaseConvention::KebabCase | CaseConvention::ScreamingKebabCase => "-"@,
    }
}

/// Whether a case convention writes every letter in uppercase.
pub open spec fn all_upper(case: CaseConvention) -> bool {
    case == CaseConvention::UpperCase || case == CaseConvention::ScreamingSnakeCase || case
        == CaseConvention::ScreamingKebabCase
}

/// How the first character of a word is written: in uppercase when the
/// convention writes all in uppercase or capitalizes words (title, Pascal,
/// and camel case but for the first word), else in lowercase.
pub open spec fn first_char(case: CaseConvention, first_word: bool, c: char) -> Seq<char> {
    if all_upper(case) || case == CaseConvention::TitleCase || case == CaseConvention::PascalCase || (case
        == CaseConvention::CamelCase && !first_word) {
        char_upper(c)
    } else {
        char_lower(c)
    }
}

/// How the other characters of a word are written.
pub open spec fn rest_char(case: CaseConvention, c: char) -> Seq<char> {
    if all_upper(case) {
        char_upper(c)
    } else {
        char_lower(c)
    }
}

/// Where a case conversion stands after some characters: whether it is in
/// a word, whether the last character was a lowercase letter or a digit, how
/// many words have started, and the text written so far.
pub struct CaseState {
    /// In a word.
    pub in_word: bool,
    /// The last character was a lowercase letter or a digit.
    pub after_small: bool,
    /// The number of words started.
    pub words: nat,
    /// The text written.
    pub out: Seq<char>,
}

/// One character of a case conversion: a separator ends the word; another
/// character starts a word (after a separator, at the start, or when an
/// uppercase letter follows a lowercase letter or digit), written after the
/// delimiter when it is not the first word, or continues the current word.
pub open spec fn case_step(case: CaseConvention, st: CaseState, c: char) -> CaseState {
    if is_separator(c) {
        CaseState { in_word: false, after_small: false, words: st.words, out: st.out }
    } else if !st.in_word || (st.after_small && is_ascii_upper(c)) {
        CaseState {
            in_word: true,
            after_small: is_ascii_small(c),
            words: st.words + 1,
            out: if st.words > 0 {
                st.out + delimiter(case) + first_char(case, false, c)
            } else {
                st.out + first_char(case, true, c)
            },
        }
    } else {
        CaseState { in_word: true, after_small: is_ascii_small(c), words: st.words, out: st.out + rest_char(case, c) }
    }
}

/// A case conversion after the characters of `s`.
pub open spec fn case_fold(case: CaseConvention, s: Seq<char>) -> CaseState
    decreases s.len(),
{
    if s.len() == 0 {
        CaseState { in_word: false, after_small: false, words: 0, out: Seq::empty() }
    } else {
        case_step(case, case_fold(case, s.drop_last()), s.last())
    }
}

/// A text written in a case convention.
pub open spec fn converted(case: CaseConvention, s: Seq<char>) -> Seq<char> {
    case_fold(case, s).out
}

/// The text of a case convention's delimiter.
fn delimiter_text(case: CaseConvention) -> (r: &'static str)
    ensures
        r@ == delimiter(case),
{
    match case {
        CaseConvention::LowerCase | CaseConvention::UpperCase | CaseConvention::TitleCase => {
            proof {
                reveal_strlit(" ");
            }
            " "
        },
        CaseConvention::PascalCase | CaseConvention::CamelCase => {
            proof {
                reveal_strlit("");
            }
            ""
        },
        CaseConvention::SnakeCase | CaseConvention::ScreamingSnakeCase => {
            proof {
                reveal_strlit("_");
            }
            "_"
        },
        CaseConvention::KebabCase | CaseConvention::ScreamingKebabCase => {
            proof {
                reveal_strlit("-");
            }
            "-"
        },
    }
}

/// Writes a text in a case convention: its words (separated by `_`, `-`,
/// spaces and dots, or starting with an uppercase letter after a lowercase
/// letter or a digit) joined by the convention's delimiter, each letter in
/// the convention's case.
pub fn convert_case(case: CaseConvention, text: &str) -> (r: String)
    ensures
        r@ == converted(case, text@),
{
    let n = text.unicode_len();
    let mut out = String::new();
    let mut in_word = false;
    let mut after_small = false;
    let mut words: usize = 0;
    let mut i: usize = 0;
    let upper = case == CaseConvention::UpperCase || case == CaseConvention::ScreamingSnakeCase || case
        == CaseConvention::ScreamingKebabCase;
    proof {
        assert(text@.subrange(0, 0) =~= Seq::<char>::empty());
    }
    while i < n
        invariant
            i <= n,
            n == text@.len(),
            upper == all_upper(case),
            words <= i,
            ({
                let st = case_fold(case, text@.subrange(0, i as int));
                st.in_word == in_word && st.after_small == after_small && st.words == words && st.out == out@
            }),
        decreases n - i,
    {
        let c = text.get_char(i);
        proof {
            assert(text@.subrange(0, i + 1).drop_last() =~= text@.subrange(0, i as int));
            assert(text@.subrange(0, i + 1).last() == c);
        }
        let sep = c == '_' || c == '-' || c == ' ' || c == '.';
        let small = ('a' <= c && c <= 'z') || ('0' <= c && c <= '9');
        if sep {
            in_word = false;
            after_small = false;
        } else if !in_word || (after_small && 'A' <= c && c <= 'Z') {
            if words > 0 {
                out.append(delimiter_text(case));
            }
            let capital = upper || case == CaseConvention::TitleCase || case == CaseConvention::PascalCase || (
            case == CaseConvention::CamelCase && words > 0);
            let written = if capital {
                uppercase_char(c)
            } else {
                lowercase_char(c)
            };
            out.append(written.as_str());
            in_word = true;
            after_small = small;
            words = words + 1;
        } else {
            let written = if upper {
                uppercase_char(c)
            } else {
                lowercase_char(c)
            };
            out.append(written.as_str());
            after_small = small;
        }
        i = i + 1;
    }
    proof {
        assert(text@.subrange(0, n as int) == text@);
    }
    out
}

/// A template value that the comment filter reads.
pub enum CommentValue {
    /// A text.
    Text(String),
    /// An array of values.
    List(Vec<CommentItem>),
    /// Any other value.
    Other,
}

/// A value in an array that the comment filter reads.
pub enum CommentItem {
    /// A text.
    Text(String),
    /// An array of values: the texts among them, `None` for the others.
    List(Vec<Option<String>>),
    /// Any other value.
    Other,
}

/// The texts that the comment filter wraps, each with the prefix of its
/// lines: a text, the texts of an array, and the texts of the arrays in an
/// array (as a list, with `- `).
pub open spec fn comment_parts(v: CommentValue) -> Seq<(Seq<char>, Seq<char>)> {
    match v {
        CommentValue::Text(t) => seq![(Seq::empty(), t@)],
        CommentValue::List(items) => item_parts(items@),
        CommentValue::Other => Seq::empty(),
    }
}

/// The texts of the items of an array that the comment filter wraps.
pub open spec fn item_parts(items: Seq<CommentItem>) -> Seq<(Seq<char>, Seq<char>)>
    decreases items.len(),
{
    if items.len() == 0 {
        Seq::empty()
    } else {
        item_parts(items.drop_last()) + match items.last() {
            CommentItem::Text(t) => seq![(Seq::<char>::empty(), t@)],
            CommentItem::List(inner) => list_parts(inner@),
            CommentItem::Other => Seq::empty(),
        }
    }
}

/// The texts of an inner array, as list items.
pub open spec fn list_parts(inner: Seq<Option<String>>) -> Seq<(Seq<char>, Seq<char>)>
    decreases inner.len(),
{
    if inner.len() == 0 {
        Seq::empty()
    } else {
        list_parts(inner.drop_last()) + match inner.last() {
            Some(t) => seq![("- "@, t@)],
            None => Seq::empty(),
        }
    }
}

/// The lines of a text wrapped at 80 columns, each with its trailing
/// whitespace removed and the prefix before it.
pub open spec fn wrapped_lines(prefix: Seq<char>, text: Seq<char>) -> Seq<Seq<char>> {
    text_wrap(trim_end(text), 80).map_values(|l: Seq<char>| prefix + trim_end(l))
}

/// The lines of all the texts, in order.
pub open spec fn comment_lines(parts: Seq<(Seq<char>, Seq<char>)>) -> Seq<Seq<char>>
    decreases parts.len(),
{
    if parts.len() == 0 {
        Seq::empty()
    } else {
        comment_lines(parts.drop_last()) + wrapped_lines(parts.last().0, parts.last().1)
    }
}

/// Lines joined into one text, each after the first on a new line that
/// starts with the prefix.
pub open spec fn joined(lines: Seq<Seq<char>>, prefix: Seq<char>) -> Seq<char>
    decreases lines.len(),
{
    if lines.len() == 0 {
        Seq::empty()
    } else if lines.len() == 1 {
        lines[0]
    } else {
        joined(lines.drop_last(), prefix) + "\n"@ + prefix + lines.last()
    }
}

/// Appends lines that `textwrap` wrapped to `lines`: each with its trailing
/// whitespace removed, after `prefix`.
pub fn push_comment_lines(prefix: &str, wrapped: &Vec<String>, lines: &mut Vec<String>)
    ensures
        final(lines)@.map_values(|l: String| l@) == old(lines)@.map_values(|l: String| l@) + wrapped@.map_values(
            |l: String| l@,
        ).map_values(|l: Seq<char>| prefix@ + trim_end(l)),
{
    let ghost w = wrapped@.map_values(|l: String| l@);
    let ghost start = lines@.map_values(|l: String| l@);
    let mut i: usize = 0;
    while i < wrapped.len()
        invariant
            i <= wrapped@.len(),
            w == wrapped@.map_values(|l: String| l@),
            start == old(lines)@.map_values(|l: String| l@),
            lines@.map_values(|l: String| l@) == start + w.subrange(0, i as int).map_values(
                |l: Seq<char>| prefix@ + trim_end(l),
            ),
        decreases wrapped@.len() - i,
    {
        let mut line = prefix.to_owned();
        let t = trim_end_text(wrapped[i].as_str());
        line.append(t.as_str());
        let ghost before = lines@.map_values(|l: String| l@);
        proof {
            assert(wrapped@[i as int]@ == w[i as int]);
        }
        lines.push(line);
        proof {
            assert(lines@.map_values(|l: String| l@) =~= before.push(prefix@ + trim_end(w[i as int])));
            assert(w.subrange(0, i + 1).map_values(|l: Seq<char>| prefix@ + trim_end(l)) =~= w.subrange(
                0,
                i as int,
            ).map_values(|l: Seq<char>| prefix@ + trim_end(l)).push(prefix@ + trim_end(w[i as int])));
        }
        i = i + 1;
    }
    proof {
        assert(w.subrange(0, i as int) == w);
    }
}

/// Appends the wrapped lines of a text to `lines`.
fn wrap_comment(comment: &str, prefix: &str, lines: &mut Vec<String>)
    ensures
        final(lines)@.map_values(|l: String| l@) == old(lines)@.map_values(|l: String| l@) + wrapped_lines(
            prefix@,
            comment@,
        ),
{
    let trimmed = trim_end_text(comment);
    let wrapped = wrap_text(trimmed.as_str(), 80);
    push_comment_lines(prefix, &wrapped, lines);
}

/// Creates a multiline comment from a value: its texts are wrapped at 80
/// columns, and the lines after the first start with `prefix` (none when
/// no prefix is given).
pub fn comment(value: &CommentValue, prefix: &Option<String>) -> (r: String)
    ensures
        r@ == joined(
            comment_lines(comment_parts(*value)),
            match prefix {
                Some(p) => p@,
                None => Seq::empty(),
            },
        ),
{
    let ghost parts = comment_parts(*value);
    let mut lines: Vec<String> = Vec::new();
    match value {
        CommentValue::Text(text) => {
            wrap_comment(text.as_str(), "", &mut lines);
            proof {
                reveal_strlit("");
                assert(parts.drop_last() =~= Seq::<(Seq<char>, Seq<char>)>::empty());
                assert(comment_lines(Seq::<(Seq<char>, Seq<char>)>::empty()) == Seq::<Seq<char>>::empty());
                assert(parts.last() == (Seq::<char>::empty(), text@));
                assert(lines@.map_values(|l: String| l@) =~= comment_lines(parts));
            }
        },
        CommentValue::List(items) => {
            let mut i: usize = 0;
            proof {
                assert(items@.subrange(0, 0) =~= Seq::<CommentItem>::empty());
                assert(lines@.map_values(|l: String| l@) =~= comment_lines(item_parts(items@.subrange(0, 0))));
            }
            while i < items.len()
                invariant
                    i <= items@.len(),
                    lines@.map_values(|l: String| l@) == comment_lines(item_parts(items@.subrange(0, i as int))),
                decreases items@.len() - i,
            {
                let ghost before = item_parts(items@.subrange(0, i as int));
                proof {
                    assert(items@.subrange(0, i + 1).drop_last() =~= items@.subrange(0, i as int));
                    assert(items@.subrange(0, i + 1).last() == items@[i as int]);
                }
                match &items[i] {
                    CommentItem::Text(text) => {
                        wrap_comment(text.as_str(), "", &mut lines);
                        proof {
                            reveal_strlit("");
                            let x = (Seq::<char>::empty(), text@);
                            lemma_comment_lines_append(before, seq![x]);
                            assert(seq![x].drop_last() =~= Seq::<(Seq<char>, Seq<char>)>::empty());
                            assert(comment_lines(Seq::<(Seq<char>, Seq<char>)>::empty()) == Seq::<Seq<char>>::empty());
                            assert(seq![x].last() == x);
                            assert(comment_lines(seq![x]) =~= wrapped_lines(x.0, x.1));
                            assert(item_parts(items@.subrange(0, i + 1)) == before + seq![x]);
                        }
                    },
                    CommentItem::List(inner) => {
                        let mut j: usize = 0;
                        proof {
                            assert(inner@.subrange(0, 0) =~= Seq::<Option<String>>::empty());
                            assert(before + list_parts(inner@.subrange(0, 0)) =~= before);
                        }
                        while j < inner.len()
                            invariant
                                j <= inner@.len(),
                                lines@.map_values(|l: String| l@) == comment_lines(
                                    before + list_parts(inner@.subrange(0, j as int)),
                                ),
                            decreases inner@.len() - j,
                        {
                            let ghost lp = list_parts(inner@.subrange(0, j as int));
                            proof {
                                assert(inner@.subrange(0, j + 1).drop_last() =~= inner@.subrange(0, j as int));
                                assert(inner@.subrange(0, j + 1).last() == inner@[j as int]);
                            }
                            match &inner[j] {
                                Some(text) => {
                                    wrap_comment(text.as_str(), "- ", &mut lines);
                                    proof {
                                        reveal_strlit("- ");
                                        let x = ("- "@, text@);
                                        lemma_comment_lines_append(before + lp, seq![x]);
                                        assert(seq![x].drop_last() =~= Seq::<(Seq<char>, Seq<char>)>::empty());
                                        assert(comment_lines(Seq::<(Seq<char>, Seq<char>)>::empty()) == Seq::<Seq<char>>::empty());
                            assert(seq![x].last() == x);
                            assert(comment_lines(seq![x]) =~= wrapped_lines(x.0, x.1));
                                        assert(list_parts(inner@.subrange(0, j + 1)) == lp + seq![x]);
                                        assert(before + lp + seq![("- "@, text@)] =~= before + list_parts(
                                            inner@.subrange(0, j + 1),
                                        ));
                                    }
                                },
                                None => {
                                    proof {
                                        assert(lp + Seq::<(Seq<char>, Seq<char>)>::empty() =~= lp);
                                        assert(list_parts(inner@.subrange(0, j + 1)) == lp);
                                    }
                                },
                            }
                            j = j + 1;
                        }
                        proof {
                            assert(inner@.subrange(0, j as int) == inner@);
                            assert(item_parts(items@.subrange(0, i + 1)) == before + list_parts(inner@));
                        }
                    },
                    CommentItem::Other => {
                        proof {
                            assert(before + Seq::<(Seq<char>, Seq<char>)>::empty() =~= before);
                            assert(item_parts(items@.subrange(0, i + 1)) == before);
                        }
                    },
                }
                i = i + 1;
            }
            proof {
                assert(items@.subrange(0, i as int) == items@);
            }
        },
        CommentValue::Other => {
            proof {
                assert(lines@.map_values(|l: String| l@) =~= comment_lines(parts));
            }
        },
    }
    let ghost all = lines@.map_values(|l: String| l@);
    let mut comments = String::new();
    let mut k: usize = 0;
    proof {
        assert(all.subrange(0, 0) =~= Seq::<Seq<char>>::empty());
    }
    while k < lines.len()
        invariant
            k <= lines@.len(),
            all == lines@.map_values(|l: String| l@),
            comments@ == joined(
                all.subrange(0, k as int),
                match prefix {
                    Some(p) => p@,
                    None => Seq::empty(),
                },
            ),
        decreases lines@.len() - k,
    {
        if k > 0 {
            comments.append("\n");
            match prefix {
                Some(p) => comments.append(p.as_str()),
                None => {},
            }
        }
        comments.append(lines[k].as_str());
        proof {
            let pv = match prefix {
                Some(p) => p@,
                None => Seq::<char>::empty(),
            };
            assert(all.subrange(0, k + 1).drop_last() =~= all.subrange(0, k as int));
            assert(all.subrange(0, k + 1).last() == all[k as int]);
            if k == 0 {
                assert(comments@ =~= joined(all.subrange(0, k + 1), pv));
            } else {
                assert(comments@ =~= joined(all.subrange(0, k as int), pv) + "\n"@ + pv + all[k as int]);
            }
        }
        k = k + 1;
    }
    proof {
        assert(all.subrange(0, k as int) == all);
    }
    comments
}

/// The lines of texts after more texts are those of the first followed by
/// those of the others.
proof fn lemma_comment_lines_append(a: Seq<(Seq<char>, Seq<char>)>, b: Seq<(Seq<char>, Seq<char>)>)
    ensures
        comment_lines(a + b) == comment_lines(a) + comment_lines(b),
    decreases b.len(),
{
    if b.len() == 0 {
        assert(a + b =~= a);
        assert(comment_lines(a) + comment_lines(b) =~= comment_lines(a));
    } else {
        lemma_comment_lines_append(a, b.drop_last());
        assert((a + b).drop_last() =~= a + b.drop_last());
        assert((a + b).last() == b.last());
        assert(comment_lines(a + b) =~= comment_lines(a) + comment_lines(b));
    }
}

/// An attribute with a requirement level is kept by exactly one of the
/// `required` and `not_required` filters; a value that is not an object is
/// kept by both.
pub proof fn lemma_requirement_filters_split(v: LevelOfView)
    ensures
        v is Level ==> keeps_required(v) != keeps_not_required(v),
        v is NotAnObject ==> keeps_required(v) && keeps_not_required(v),
{
}

} // verus!
