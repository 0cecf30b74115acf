//! Writes a rule for a window that is ready to be pasted into the configuration.
//!
//! Only two fields of a rule are matchers: `title`, a regular expression that is
//! matched anywhere in the title, and `bundle_id`, which has to be equal. All
//! others are effects, so the snippet has the two matchers live and the rest, and
//! what else identifies the window, as comments.
use vstd::prelude::*;
use vstd::string::*;

use crate::text;
use crate::text::letters;

verus! {

/// The language that the configuration is written in.
#[derive(Clone, Copy, Debug, PartialEq, Eq, Structural)]
pub enum SnippetDialect {
    Toml,
    Lua,
}

impl Default for SnippetDialect {
    fn default() -> (dialect: Self)
        ensures
            dialect == SnippetDialect::Toml,
    {
        SnippetDialect::Toml
    }
}

/// The window that a rule is written for.
#[derive(Clone, Copy, Debug)]
pub struct RuleSubject<'a> {
    pub app_name: &'a str,
    pub bundle_id: &'a str,
    pub title: &'a str,
    pub role: &'a str,
    pub subrole: &'a str,
}

// ---------------------------------------------------------------------------
// The key of the rule
// ---------------------------------------------------------------------------
/// An ASCII digit.
pub open spec fn is_digit(c: char) -> bool {
    '0' <= c <= '9'
}

/// An ASCII letter.
pub open spec fn is_letter(c: char) -> bool {
    'a' <= c <= 'z' || 'A' <= c <= 'Z'
}

/// An ASCII letter or digit.
pub open spec fn is_plain(c: char) -> bool {
    is_digit(c) || is_letter(c)
}

/// The small letter of an ASCII capital; any other character itself.
pub open spec fn lowered(c: char) -> char {
    if 'A' <= c <= 'Z' {
        (c as u32 + 32) as char
    } else {
        c
    }
}

/// The English word for a digit.
pub open spec fn digit_word(c: char) -> Seq<char> {
    if c == '0' {
        "zero"@
    } else if c == '1' {
        "one"@
    } else if c == '2' {
        "two"@
    } else if c == '3' {
        "three"@
    } else if c == '4' {
        "four"@
    } else if c == '5' {
        "five"@
    } else if c == '6' {
        "six"@
    } else if c == '7' {
        "seven"@
    } else if c == '8' {
        "eight"@
    } else {
        "nine"@
    }
}

/// How a key starts with this character.
pub open spec fn key_head(c: char) -> Seq<char> {
    if is_digit(c) {
        digit_word(c)
    } else {
        seq![lowered(c)]
    }
}

/// A key with more characters behind it: each run of characters that are neither
/// letters nor digits is one underscore.
pub open spec fn key_with(head: Seq<char>, rest: Seq<char>) -> Seq<char>
    decreases rest.len(),
{
    if rest.len() == 0 {
        head
    } else {
        let before = key_with(head, rest.drop_last());
        let c = rest.last();
        if is_plain(c) {
            before.push(lowered(c))
        } else if before.len() > 0 && before.last() == '_' {
            before
        } else {
            before.push('_')
        }
    }
}

/// A key without an underscore at its end.
pub open spec fn key_closed(key: Seq<char>) -> Seq<char> {
    if key.len() > 0 && key.last() == '_' {
        key.drop_last()
    } else {
        key
    }
}

/// The key for the name of an application: it starts at the first letter or
/// digit.
pub open spec fn spec_rule_key(name: Seq<char>) -> Seq<char>
    decreases name.len(),
{
    if name.len() == 0 {
        "window"@
    } else if !is_plain(name[0]) {
        spec_rule_key(name.drop_first())
    } else {
        key_closed(key_with(key_head(name[0]), name.drop_first()))
    }
}

fn plain(c: char) -> (plain: bool)
    ensures
        plain == is_plain(c),
{
    '0' <= c && c <= '9' || 'a' <= c && c <= 'z' || 'A' <= c && c <= 'Z'
}

/// The small letter of a capital.
fn lower(c: char) -> (lower: char)
    ensures
        lower == lowered(c),
{
    match c {
        'A' => 'a',
        'B' => 'b',
        'C' => 'c',
        'D' => 'd',
        'E' => 'e',
        'F' => 'f',
        'G' => 'g',
        'H' => 'h',
        'I' => 'i',
        'J' => 'j',
        'K' => 'k',
        'L' => 'l',
        'M' => 'm',
        'N' => 'n',
        'O' => 'o',
        'P' => 'p',
        'Q' => 'q',
        'R' => 'r',
        'S' => 's',
        'T' => 't',
        'U' => 'u',
        'V' => 'v',
        'W' => 'w',
        'X' => 'x',
        'Y' => 'y',
        'Z' => 'z',
        _ => c,
    }
}

/// How a key starts.
fn head_of(c: char) -> (head: String)
    requires
        is_plain(c),
    ensures
        head@ == key_head(c),
{
    match c {
        '0' => "zero".to_owned(),
        '1' => "one".to_owned(),
        '2' => "two".to_owned(),
        '3' => "three".to_owned(),
        '4' => "four".to_owned(),
        '5' => "five".to_owned(),
        '6' => "six".to_owned(),
        '7' => "seven".to_owned(),
        '8' => "eight".to_owned(),
        '9' => "nine".to_owned(),
        _ => {
            let mut head = String::new();
            head.push(lower(c));
            assert(head@ =~= seq![lowered(c)]);
            head
        },
    }
}

/// Turns the name of an application into the key of a table: small letters, with
/// each run of other characters turned into one underscore. A leading digit is
/// written out as a word, so that the key is a bare name in both languages.
pub fn rule_key(app_name: &str) -> (key: String)
    ensures
        key@ == spec_rule_key(app_name@),
{
    let name = letters(app_name);
    let mut start: usize = 0;
    assert(name@.skip(0) =~= app_name@);
    while start < name.len() && !plain(name[start])
        invariant
            start <= name.len(),
            spec_rule_key(name@.skip(start as int)) == spec_rule_key(app_name@),
        decreases name.len() - start,
    {
        assert(name@.skip(start as int).drop_first() =~= name@.skip(start + 1));
        start = start + 1;
    }
    let ghost here = name@.skip(start as int);
    if start == name.len() {
        return "window".to_owned();
    }
    assert(here[0] == name@[start as int]);
    let ghost rest = here.drop_first();
    let ghost head = key_head(name@[start as int]);
    let mut key = head_of(name[start]);
    proof {
        lemma_head(name@[start as int]);
    }
    // An underscore is only added once the next letter or digit comes.
    let mut gap = false;
    let mut i: usize = start + 1;
    assert(rest.take(0) =~= Seq::empty());
    while i < name.len()
        invariant
            start < i <= name.len(),
            rest == name@.skip(start as int).drop_first(),
            key@.len() > 0,
            key@.last() != '_',
            key_with(head, rest.take(i - start - 1)) == if gap {
                key@.push('_')
            } else {
                key@
            },
        decreases name.len() - i,
    {
        let ghost n = i - start - 1;
        let c = name[i];
        proof {
            assert(rest[n] == c);
            assert(rest.take(n + 1).drop_last() =~= rest.take(n));
            assert(rest.take(n + 1).last() == c);
        }
        if plain(c) {
            if gap {
                key.push('_');
                gap = false;
            }
            key.push(lower(c));
        } else {
            gap = true;
        }
        i = i + 1;
    }
    proof {
        assert(rest.take(rest.len() as int) =~= rest);
        assert(key_closed(key_with(head, rest)) =~= key@);
    }
    key
}

/// A key starts with a small letter.
proof fn lemma_head(c: char)
    requires
        is_plain(c),
    ensures
        key_head(c).len() > 0,
        forall|i: int| 0 <= i < key_head(c).len() ==> 'a' <= #[trigger] key_head(c)[i] <= 'z',
{
    reveal_strlit("zero");
    reveal_strlit("one");
    reveal_strlit("two");
    reveal_strlit("three");
    reveal_strlit("four");
    reveal_strlit("five");
    reveal_strlit("six");
    reveal_strlit("seven");
    reveal_strlit("eight");
    reveal_strlit("nine");
}

/// A character that a key may hold.
pub open spec fn is_key_char(c: char) -> bool {
    'a' <= c <= 'z' || is_digit(c) || c == '_'
}

proof fn lemma_key_with(head: Seq<char>, rest: Seq<char>)
    requires
        head.len() > 0,
        forall|i: int| 0 <= i < head.len() ==> 'a' <= #[trigger] head[i] <= 'z',
    ensures
        key_with(head, rest).len() >= head.len(),
        key_with(head, rest)[0] == head[0],
        forall|i: int|
            0 <= i < key_with(head, rest).len() ==> is_key_char(#[trigger] key_with(head, rest)[i]),
        forall|i: int|
            0 <= i < key_with(head, rest).len() - 1 ==> !(#[trigger] key_with(head, rest)[i] == '_'
                && key_with(head, rest)[i + 1] == '_'),
    decreases rest.len(),
{
    if rest.len() > 0 {
        lemma_key_with(head, rest.drop_last());
    }
}

/// The key is a bare name in both languages: small letters, digits and single
/// underscores between them, with a letter first.
pub proof fn law_rule_key_is_a_bare_name(name: Seq<char>)
    ensures
        spec_rule_key(name).len() > 0,
        'a' <= spec_rule_key(name)[0] <= 'z',
        spec_rule_key(name).last() != '_',
        forall|i: int|
            0 <= i < spec_rule_key(name).len() ==> is_key_char(#[trigger] spec_rule_key(name)[i]),
        forall|i: int|
            0 <= i < spec_rule_key(name).len() - 1 ==> !(#[trigger] spec_rule_key(name)[i] == '_'
                && spec_rule_key(name)[i + 1] == '_'),
    decreases name.len(),
{
    if name.len() == 0 {
        reveal_strlit("window");
    } else if !is_plain(name[0]) {
        law_rule_key_is_a_bare_name(name.drop_first());
    } else {
        lemma_head(name[0]);
        lemma_key_with(key_head(name[0]), name.drop_first());
        let key = key_with(key_head(name[0]), name.drop_first());
        let closed = key_closed(key);
        assert forall|i: int| 0 <= i < closed.len() - 1 implies !(#[trigger] closed[i] == '_'
            && closed[i + 1] == '_') by {
            assert(closed[i] == key[i]);
        }
    }
}

// ---------------------------------------------------------------------------
// Quoting
// ---------------------------------------------------------------------------
/// How a character is written between quotation marks.
pub open spec fn quoted_char(c: char) -> Seq<char> {
    if c == '\\' {
        seq!['\\', '\\']
    } else if c == '"' {
        seq!['\\', '"']
    } else if c == '\n' {
        seq!['\\', 'n']
    } else if c == '\t' {
        seq!['\\', 't']
    } else if c == '\r' {
        seq!['\\', 'r']
    } else {
        seq![c]
    }
}

/// How a text is written between quotation marks.
pub open spec fn quoted(text: Seq<char>) -> Seq<char>
    decreases text.len(),
{
    if text.len() == 0 {
        text
    } else {
        quoted(text.drop_last()) + quoted_char(text.last())
    }
}

/// Writes a text for a double-quoted string of TOML or Lua.
pub fn quote(text: &str) -> (out: String)
    ensures
        out@ == quoted(text@),
{
    let characters = letters(text);
    let mut out = String::new();
    let mut i: usize = 0;
    assert(out@ =~= quoted(text@.take(0)));
    while i < characters.len()
        invariant
            i <= characters.len(),
            characters@ == text@,
            out@ == quoted(text@.take(i as int)),
        decreases characters.len() - i,
    {
        let c = characters[i];
        let ghost before = out@;
        proof {
            assert(text@.take(i + 1).drop_last() =~= text@.take(i as int));
            assert(text@.take(i + 1).last() == c);
        }
        match c {
            '\\' => {
                out.push('\\');
                out.push('\\');
            },
            '"' => {
                out.push('\\');
                out.push('"');
            },
            '\n' => {
                out.push('\\');
                out.push('n');
            },
            '\t' => {
                out.push('\\');
                out.push('t');
            },
            '\r' => {
                out.push('\\');
                out.push('r');
            },
            _ => out.push(c),
        }
        assert(out@ =~= before + quoted_char(c));
        i = i + 1;
    }
    assert(text@.take(i as int) =~= text@);
    out
}

/// The character that stands for another behind a backslash.
pub open spec fn escape_of(c: char) -> Option<char> {
    if c == '\\' {
        Some('\\')
    } else if c == '"' {
        Some('"')
    } else if c == 'n' {
        Some('\n')
    } else if c == 't' {
        Some('\t')
    } else if c == 'r' {
        Some('\r')
    } else {
        None
    }
}

/// What a double-quoted string means: `None` if a quotation mark or the end of
/// the line would end it early, or a backslash stands before another character.
pub open spec fn unquoted(text: Seq<char>) -> Option<Seq<char>>
    decreases text.len(),
{
    if text.len() == 0 {
        Some(text)
    } else if text[0] == '"' || text[0] == '\n' || text[0] == '\r' {
        None
    } else if text[0] != '\\' {
        match unquoted(text.drop_first()) {
            Some(rest) => Some(seq![text[0]] + rest),
            None => None,
        }
    } else if text.len() > 1 && escape_of(text[1]) is Some {
        match unquoted(text.skip(2)) {
            Some(rest) => Some(seq![escape_of(text[1])->0] + rest),
            None => None,
        }
    } else {
        None
    }
}

/// One more character in front of a string.
proof fn lemma_unquoted_front(c: char, rest: Seq<char>)
    requires
        unquoted(rest) is Some,
    ensures
        unquoted(quoted_char(c) + rest) == Some(seq![c] + unquoted(rest)->0),
{
    let all = quoted_char(c) + rest;
    if quoted_char(c).len() == 1 {
        assert(all.drop_first() =~= rest);
    } else {
        assert(all.skip(2) =~= rest);
    }
}

/// The writing of a text from its front.
proof fn lemma_quoted_front(text: Seq<char>)
    requires
        text.len() > 0,
    ensures
        quoted(text) == quoted_char(text[0]) + quoted(text.drop_first()),
    decreases text.len(),
{
    if text.len() == 1 {
        assert(text.drop_last() =~= Seq::empty());
        assert(text.drop_first() =~= Seq::empty());
        assert(quoted(text) =~= quoted_char(text[0]) + quoted(text.drop_first()));
    } else {
        let front = text.drop_last();
        lemma_quoted_front(front);
        assert(text.drop_first().drop_last() =~= front.drop_first());
        assert(quoted(text) =~= quoted_char(text[0]) + (quoted(front.drop_first()) + quoted_char(
            text.last(),
        )));
    }
}

/// Reading a quoted text back gives the text: the string ends where it should,
/// and each character means itself.
pub proof fn law_quoted_text_reads_back(text: Seq<char>)
    ensures
        unquoted(quoted(text)) == Some(text),
    decreases text.len(),
{
    if text.len() > 0 {
        let rest = text.drop_first();
        law_quoted_text_reads_back(rest);
        lemma_quoted_front(text);
        lemma_unquoted_front(text[0], quoted(rest));
        assert(seq![text[0]] + rest =~= text);
    }
}

// ---------------------------------------------------------------------------
// The title
// ---------------------------------------------------------------------------
/// A character that means something in a regular expression.
pub open spec fn is_meta(c: char) -> bool {
    c == '\\' || c == '.' || c == '+' || c == '*' || c == '?' || c == '(' || c == ')' || c == '|'
        || c == '[' || c == ']' || c == '{' || c == '}' || c == '^' || c == '$' || c == '#' || c
        == '&' || c == '-' || c == '~'
}

/// A regular expression for just this text: a backslash stands before each
/// character that would mean something else.
pub open spec fn escaped(text: Seq<char>) -> Seq<char>
    decreases text.len(),
{
    if text.len() == 0 {
        text
    } else if is_meta(text.last()) {
        escaped(text.drop_last()).push('\\').push(text.last())
    } else {
        escaped(text.drop_last()).push(text.last())
    }
}

/// `regex::escape`: puts a backslash before each character of a text that means
/// something in a regular expression, and keeps all others.
#[verifier::external_body]
fn escape(text: &str) -> (pattern: String)
    ensures
        pattern@ == escaped(text@),
{
    regex::escape(text)
}

/// What the characters of a pattern without operators stand for: each behind a
/// backslash itself, all others themselves. `None` if an operator is left.
pub open spec fn literal(pattern: Seq<char>) -> Option<Seq<char>>
    decreases pattern.len(),
{
    if pattern.len() == 0 {
        Some(pattern)
    } else if pattern.len() > 1 && pattern[pattern.len() - 2] == '\\' && is_meta(pattern.last()) {
        match literal(pattern.take(pattern.len() - 2)) {
            Some(before) => Some(before.push(pattern.last())),
            None => None,
        }
    } else if is_meta(pattern.last()) {
        None
    } else {
        match literal(pattern.drop_last()) {
            Some(before) => Some(before.push(pattern.last())),
            None => None,
        }
    }
}

/// The pattern for a title has no operators and stands for just that title.
pub proof fn law_escaped_title_is_literal(text: Seq<char>)
    ensures
        literal(escaped(text)) == Some(text),
    decreases text.len(),
{
    if text.len() > 0 {
        let front = text.drop_last();
        let c = text.last();
        law_escaped_title_is_literal(front);
        let pattern = escaped(text);
        assert(front.push(c) =~= text);
        if is_meta(c) {
            assert(pattern.take(pattern.len() - 2) =~= escaped(front));
        } else {
            assert(pattern.drop_last() =~= escaped(front));
        }
    }
}

/// The pattern of a title, quoted: the whole title and nothing else, or anything
/// where there is no title.
pub open spec fn spec_title_pattern(title: Seq<char>) -> Seq<char> {
    if title.len() == 0 {
        ".*"@
    } else {
        quoted("^"@ + escaped(title) + "$"@)
    }
}

/// The pattern of a title, quoted.
pub fn title_pattern(title: &str) -> (pattern: String)
    ensures
        pattern@ == spec_title_pattern(title@),
{
    if letters(title).len() == 0 {
        return ".*".to_owned();
    }
    let mut pattern = "^".to_owned();
    let inner = escape(title);
    pattern.append(inner.as_str());
    pattern.append("$");
    quote(pattern.as_str())
}

// ---------------------------------------------------------------------------
// The snippet
// ---------------------------------------------------------------------------
/// A text, or a question mark where there is none.
pub open spec fn or_unknown(text: Seq<char>) -> Seq<char> {
    if text.len() == 0 {
        "?"@
    } else {
        text
    }
}

/// What identifies the window besides the matchers.
pub open spec fn spec_identity(subject: RuleSubject) -> Seq<char> {
    "app: "@ + or_unknown(subject.app_name@) + "  role: "@ + or_unknown(subject.role@)
        + "  subrole: "@ + or_unknown(subject.subrole@)
}

fn known<'a>(text: &'a str) -> (known: &'a str)
    ensures
        known@ == or_unknown(text@),
{
    if letters(text).len() == 0 {
        "?"
    } else {
        text
    }
}

/// What identifies the window besides the matchers. No rule can match it; it
/// tells the pasted rule apart from the next one.
pub fn identity_comment(subject: &RuleSubject) -> (comment: String)
    ensures
        comment@ == spec_identity(*subject),
{
    let mut comment = "app: ".to_owned();
    comment.append(known(subject.app_name));
    comment.append("  role: ");
    comment.append(known(subject.role));
    comment.append("  subrole: ");
    comment.append(known(subject.subrole));
    comment
}

/// Lines, each with its end.
pub open spec fn ended(lines: Seq<Seq<char>>) -> Seq<char>
    decreases lines.len(),
{
    if lines.len() == 0 {
        Seq::empty()
    } else {
        ended(lines.drop_last()) + lines.last() + "\n"@
    }
}

/// The line with the bundle of the window, which is a comment where it is not
/// known.
pub open spec fn bundle_line(dialect: SnippetDialect, subject: RuleSubject) -> Seq<char> {
    match dialect {
        SnippetDialect::Toml => if subject.bundle_id@.len() == 0 {
            "# bundle_id = \"\"   # unknown; rule matches every app"@
        } else {
            "bundle_id = \""@ + quoted(subject.bundle_id@) + "\""@
        },
        SnippetDialect::Lua => if subject.bundle_id@.len() == 0 {
            "    -- bundle_id = \"\",   -- unknown; rule matches every app"@
        } else {
            "    bundle_id = \""@ + quoted(subject.bundle_id@) + "\","@
        },
    }
}

/// The lines that suggest a rule for all windows of the application, unless the
/// rule is one already.
pub open spec fn wildcard_lines(dialect: SnippetDialect, subject: RuleSubject) -> Seq<Seq<char>> {
    if subject.title@.len() == 0 {
        Seq::empty()
    } else {
        match dialect {
            SnippetDialect::Toml => seq!["# title = \".*\"   # all windows of this app"@],
            SnippetDialect::Lua => seq!["    -- title = \".*\",   -- all windows of this app"@],
        }
    }
}

/// The lines of the snippet.
pub open spec fn snippet_lines(dialect: SnippetDialect, subject: RuleSubject) -> Seq<Seq<char>> {
    let key = spec_rule_key(subject.app_name@);
    let title = spec_title_pattern(subject.title@);
    match dialect {
        SnippetDialect::Toml => seq![
            "[windows."@ + key + "]"@,
            bundle_line(dialect, subject),
            "title = \""@ + title + "\""@,
        ] + wildcard_lines(dialect, subject) + seq![
            "# "@ + spec_identity(subject),
            "# floating = true"@,
            "# manage = true"@,
            "# width = 0.5"@,
        ],
        SnippetDialect::Lua => seq![
            "windows = {"@,
            "  "@ + key + " = {"@,
            bundle_line(dialect, subject),
            "    title = \""@ + title + "\","@,
        ] + wildcard_lines(dialect, subject) + seq![
            "    -- "@ + spec_identity(subject),
            "    -- floating = true,"@,
            "    -- manage = true,"@,
            "    -- width = 0.5,"@,
            "  },"@,
            "}"@,
        ],
    }
}

/// A text of three parts.
fn wrapped(before: &str, inner: &str, after: &str) -> (text: String)
    ensures
        text@ == before@ + inner@ + after@,
{
    let mut text = before.to_owned();
    text.append(inner);
    text.append(after);
    text
}

/// Lines with one more.
fn add_line(lines: &mut Vec<String>, line: String)
    ensures
        text::texts(final(lines)@) == text::texts(old(lines)@).push(line@),
{
    let ghost before = text::texts(lines@);
    lines.push(line);
    assert(text::texts(lines@) =~= before.push(line@));
}

/// The lines, each with its end.
fn end_lines(lines: &Vec<String>) -> (out: String)
    ensures
        out@ == ended(text::texts(lines@)),
{
    let ghost all = text::texts(lines@);
    let mut out = String::new();
    let mut i: usize = 0;
    assert(out@ =~= ended(all.take(0)));
    while i < lines.len()
        invariant
            i <= lines.len(),
            all == text::texts(lines@),
            out@ == ended(all.take(i as int)),
        decreases lines.len() - i,
    {
        proof {
            assert(all.take(i + 1).drop_last() =~= all.take(i as int));
            assert(all.take(i + 1).last() == lines@[i as int]@);
        }
        out.append(lines[i].as_str());
        out.append("\n");
        i = i + 1;
    }
    assert(all.take(i as int) =~= all);
    out
}

/// Writes the snippet for a window.
pub fn window_rule_snippet(dialect: SnippetDialect, subject: &RuleSubject) -> (snippet: String)
    ensures
        snippet@ == ended(snippet_lines(dialect, *subject)),
{
    let key = rule_key(subject.app_name);
    let title = title_pattern(subject.title);
    let titled = letters(subject.title).len() > 0;
    let identity = identity_comment(subject);
    let bundle_id = quote(subject.bundle_id);
    let bundled = letters(subject.bundle_id).len() > 0;
    let mut lines: Vec<String> = Vec::new();
    assert(text::texts(lines@) =~= Seq::empty());
    match dialect {
        SnippetDialect::Toml => {
            add_line(&mut lines, wrapped("[windows.", key.as_str(), "]"));
            if !bundled {
                add_line(
                    &mut lines,
                    "# bundle_id = \"\"   # unknown; rule matches every app".to_owned(),
                );
            } else {
                add_line(&mut lines, wrapped("bundle_id = \"", bundle_id.as_str(), "\""));
            }
            add_line(&mut lines, wrapped("title = \"", title.as_str(), "\""));
            if titled {
                add_line(&mut lines, "# title = \".*\"   # all windows of this app".to_owned());
            }
            let mut comment = "# ".to_owned();
            comment.append(identity.as_str());
            add_line(&mut lines, comment);
            add_line(&mut lines, "# floating = true".to_owned());
            add_line(&mut lines, "# manage = true".to_owned());
            add_line(&mut lines, "# width = 0.5".to_owned());
        },
        SnippetDialect::Lua => {
            add_line(&mut lines, "windows = {".to_owned());
            add_line(&mut lines, wrapped("  ", key.as_str(), " = {"));
            if !bundled {
                add_line(
                    &mut lines,
                    "    -- bundle_id = \"\",   -- unknown; rule matches every app".to_owned(),
                );
            } else {
                add_line(&mut lines, wrapped("    bundle_id = \"", bundle_id.as_str(), "\","));
            }
            add_line(&mut lines, wrapped("    title = \"", title.as_str(), "\","));
            if titled {
                add_line(
                    &mut lines,
                    "    -- title = \".*\",   -- all windows of this app".to_owned(),
                );
            }
            let mut comment = "    -- ".to_owned();
            comment.append(identity.as_str());
            add_line(&mut lines, comment);
            add_line(&mut lines, "    -- floating = true,".to_owned());
            add_line(&mut lines, "    -- manage = true,".to_owned());
            add_line(&mut lines, "    -- width = 0.5,".to_owned());
            add_line(&mut lines, "  },".to_owned());
            add_line(&mut lines, "}".to_owned());
        },
    }
    assert(text::texts(lines@) =~= snippet_lines(dialect, *subject));
    end_lines(&lines)
}

/// The title of a rule, read back from the string that it is written as, is the
/// anchored pattern of just that title.
pub proof fn law_rule_matches_its_window(title: Seq<char>)
    requires
        title.len() > 0,
    ensures
        unquoted(spec_title_pattern(title)) == Some("^"@ + escaped(title) + "$"@),
        literal(escaped(title)) == Some(title),
{
    law_quoted_text_reads_back("^"@ + escaped(title) + "$"@);
    law_escaped_title_is_literal(title);
}

} // verus!
