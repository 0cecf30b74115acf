//! How the rules of a configuration file read: the lines that a table of rules is
//! written with, and what they say.
use vstd::prelude::*;
use vstd::string::*;

use crate::config::snippet;
use crate::config::snippet::{RuleSubject, SnippetDialect};
use crate::search;
use crate::text;

verus! {

// ---------------------------------------------------------------------------
// Reading
// ---------------------------------------------------------------------------
/// A character that may stand in no line.
pub open spec fn is_control(c: char) -> bool {
    c < ' ' && c != '\t' || c == '\u{7f}'
}

/// A character of a name that is not quoted.
pub open spec fn is_bare(c: char) -> bool {
    snippet::is_plain(c) || c == '_' || c == '-'
}

/// A name that needs no quotation marks.
pub open spec fn is_name(text: Seq<char>) -> bool {
    text.len() > 0 && forall|i: int| 0 <= i < text.len() ==> is_bare(#[trigger] text[i])
}

/// What a line says.
pub enum Line {
    /// It is empty or a comment.
    Nothing,
    /// A table with this name begins.
    Table(Seq<Seq<char>>),
    /// A text behind its name.
    Entry(Seq<char>, Seq<char>),
    /// It cannot be read.
    Unreadable,
}

/// Where the name that a line begins with ends.
pub open spec fn name_end(line: Seq<char>) -> int {
    match search::first_index(line, |c: char| !is_bare(c)) {
        Some(n) => n,
        None => line.len() as int,
    }
}

/// What a line says that has a name, an equals sign between spaces, and a text in
/// quotation marks.
pub open spec fn read_entry(line: Seq<char>) -> Line {
    let n = name_end(line);
    if n > 0 && line.len() >= n + 5 && line.subrange(n, n + 4) == " = \""@ && line.last() == '"' {
        match snippet::unquoted(line.subrange(n + 4, line.len() - 1)) {
            Some(value) => Line::Entry(line.take(n), value),
            None => Line::Unreadable,
        }
    } else {
        Line::Unreadable
    }
}

/// What a line says.
pub open spec fn read_line(line: Seq<char>) -> Line {
    if exists|i: int| 0 <= i < line.len() && is_control(#[trigger] line[i]) {
        Line::Unreadable
    } else if line.len() == 0 || line[0] == '#' {
        Line::Nothing
    } else if line[0] == '[' {
        let names = text::pieces(line.subrange(1, line.len() - 1), '.');
        if line.len() > 1 && line.last() == ']' && forall|i: int|
            0 <= i < names.len() ==> is_name(#[trigger] names[i]) {
            Line::Table(names)
        } else {
            Line::Unreadable
        }
    } else {
        read_entry(line)
    }
}

/// A table of a file.
pub struct Table {
    pub name: Seq<Seq<char>>,
    pub entries: Seq<(Seq<char>, Seq<char>)>,
}

/// The tables after one more line. A file with a line that cannot be read, an entry
/// outside all tables, or a name that is given twice has none.
pub open spec fn with_line(tables: Option<Seq<Table>>, line: Line) -> Option<Seq<Table>> {
    match (tables, line) {
        (None, _) => None,
        (Some(_), Line::Unreadable) => None,
        (Some(tables), Line::Nothing) => Some(tables),
        (Some(tables), Line::Table(name)) => if exists|i: int|
            0 <= i < tables.len() && (#[trigger] tables[i]).name == name {
            None
        } else {
            Some(tables.push(Table { name, entries: Seq::empty() }))
        },
        (Some(tables), Line::Entry(name, value)) => if tables.len() == 0 || exists|i: int|
            0 <= i < tables.last().entries.len() && (#[trigger] tables.last().entries[i]).0
                == name {
            None
        } else {
            Some(
                tables.drop_last().push(
                    Table { entries: tables.last().entries.push((name, value)), ..tables.last() },
                ),
            )
        },
    }
}

/// The tables that some lines hold.
pub open spec fn read_lines(lines: Seq<Seq<char>>) -> Option<Seq<Table>>
    decreases lines.len(),
{
    if lines.len() == 0 {
        Some(Seq::empty())
    } else {
        with_line(read_lines(lines.drop_last()), read_line(lines.last()))
    }
}

/// The tables that a file holds.
pub open spec fn read_document(document: Seq<char>) -> Option<Seq<Table>> {
    read_lines(text::pieces(document, '\n'))
}

// ---------------------------------------------------------------------------
// Lines
// ---------------------------------------------------------------------------
/// A text without separators behind another one lengthens its last piece.
proof fn lemma_pieces_add(a: Seq<char>, b: Seq<char>, separator: char)
    requires
        forall|i: int| 0 <= i < b.len() ==> #[trigger] b[i] != separator,
    ensures
        text::pieces(a, separator).len() > 0,
        text::pieces(a + b, separator) == text::pieces(a, separator).drop_last().push(
            text::pieces(a, separator).last() + b,
        ),
    decreases b.len(),
{
    text::lemma_some_piece(a, separator);
    let before = text::pieces(a, separator);
    if b.len() == 0 {
        assert(a + b =~= a);
        assert(before.last() + b =~= before.last());
        assert(before.drop_last().push(before.last()) =~= before);
    } else {
        let front = b.drop_last();
        lemma_pieces_add(a, front, separator);
        assert((a + b).drop_last() =~= a + front);
        assert((a + b).last() == b.last());
        let grown = text::pieces(a + front, separator);
        assert(grown.drop_last() =~= before.drop_last());
        assert((before.last() + front).push(b.last()) =~= before.last() + b);
    }
}

/// A separator begins a new piece.
proof fn lemma_pieces_push(a: Seq<char>, separator: char)
    ensures
        text::pieces(a.push(separator), separator) == text::pieces(a, separator).push(
            Seq::empty(),
        ),
{
    assert(a.push(separator).drop_last() =~= a);
}

/// Lines that were written read as the same lines, and an empty one at the end.
pub proof fn lemma_written_lines(lines: Seq<Seq<char>>)
    requires
        forall|k: int, i: int|
            0 <= k < lines.len() && 0 <= i < lines[k].len() ==> #[trigger] lines[k][i] != '\n',
    ensures
        text::pieces(snippet::ended(lines), '\n') == lines.push(Seq::empty()),
    decreases lines.len(),
{
    if lines.len() == 0 {
        assert(text::pieces(snippet::ended(lines), '\n') =~= lines.push(Seq::empty()));
    } else {
        let front = lines.drop_last();
        let last = lines.last();
        assert forall|k: int, i: int| 0 <= k < front.len() && 0 <= i < front[k].len() implies
            #[trigger] front[k][i] != '\n' by {
            assert(lines[k][i] != '\n');
        }
        lemma_written_lines(front);
        let before = snippet::ended(front);
        assert forall|i: int| 0 <= i < last.len() implies #[trigger] last[i] != '\n' by {
            assert(lines[lines.len() - 1][i] != '\n');
        }
        lemma_pieces_add(before, last, '\n');
        lemma_pieces_push(before + last, '\n');
        reveal_strlit("\n");
        assert(before + last + "\n"@ =~= (before + last).push('\n'));
        assert(front.push(Seq::empty()).drop_last() =~= front);
        assert(Seq::<char>::empty() + last =~= last);
        assert(front.push(last) =~= lines);
    }
}

/// Lines that say nothing change nothing.
proof fn lemma_comments(lines: Seq<Seq<char>>, more: Seq<Seq<char>>)
    requires
        forall|i: int| 0 <= i < more.len() ==> read_line(#[trigger] more[i]) is Nothing,
    ensures
        read_lines(lines + more) == read_lines(lines),
    decreases more.len(),
{
    if more.len() == 0 {
        assert(lines + more =~= lines);
    } else {
        let front = more.drop_last();
        assert forall|i: int| 0 <= i < front.len() implies read_line(#[trigger] front[i])
            is Nothing by {
            assert(front[i] == more[i]);
        }
        lemma_comments(lines, front);
        assert((lines + more).drop_last() =~= lines + front);
        assert(read_line(more[more.len() - 1]) is Nothing);
    }
}

/// One more line.
proof fn lemma_one_more(lines: Seq<Seq<char>>, line: Seq<char>)
    ensures
        read_lines(lines.push(line)) == with_line(read_lines(lines), read_line(line)),
{
    assert(lines.push(line).drop_last() =~= lines);
}

/// A text has no character that may stand in no line.
pub open spec fn is_clean(text: Seq<char>) -> bool {
    forall|i: int| 0 <= i < text.len() ==> !is_control(#[trigger] text[i])
}

/// A text has no such character but ends of lines.
pub open spec fn is_writable(text: Seq<char>) -> bool {
    forall|i: int|
        0 <= i < text.len() ==> !is_control(#[trigger] text[i]) || text[i] == '\n' || text[i]
            == '\r'
}

/// What is quoted can stand in a line.
pub proof fn lemma_quoted_is_clean(text: Seq<char>)
    requires
        is_writable(text),
    ensures
        is_clean(snippet::quoted(text)),
    decreases text.len(),
{
    if text.len() > 0 {
        let front = text.drop_last();
        assert forall|i: int| 0 <= i < front.len() implies !is_control(#[trigger] front[i])
            || front[i] == '\n' || front[i] == '\r' by {
            assert(front[i] == text[i]);
        }
        lemma_quoted_is_clean(front);
        let last = snippet::quoted_char(text[text.len() - 1]);
        assert(is_clean(last));
        lemma_clean_add(snippet::quoted(front), last);
    }
}

/// A pattern for a text has no other characters than backslashes and its own.
proof fn lemma_escaped_is_writable(text: Seq<char>)
    requires
        is_writable(text),
    ensures
        is_writable(snippet::escaped(text)),
    decreases text.len(),
{
    if text.len() > 0 {
        let front = text.drop_last();
        assert forall|i: int| 0 <= i < front.len() implies !is_control(#[trigger] front[i])
            || front[i] == '\n' || front[i] == '\r' by {
            assert(front[i] == text[i]);
        }
        lemma_escaped_is_writable(front);
        let c = text[text.len() - 1];
        assert(!is_control(c) || c == '\n' || c == '\r');
    }
}

/// Clean texts behind each other are clean.
pub proof fn lemma_clean_add(a: Seq<char>, b: Seq<char>)
    requires
        is_clean(a),
        is_clean(b),
    ensures
        is_clean(a + b),
{
    assert forall|i: int| 0 <= i < (a + b).len() implies !is_control(#[trigger] (a + b)[i]) by {
        if i < a.len() {
            assert((a + b)[i] == a[i]);
        } else {
            assert((a + b)[i] == b[i - a.len()]);
        }
    }
}

/// A line with a name, an equals sign and a quoted text is an entry.
proof fn lemma_entry(name: Seq<char>, value: Seq<char>)
    requires
        is_name(name),
        is_clean(snippet::quoted(value)),
    ensures
        is_clean(name + " = \""@ + snippet::quoted(value) + "\""@),
        read_line(name + " = \""@ + snippet::quoted(value) + "\""@) == Line::Entry(name, value),
{
    reveal_strlit(" = \"");
    reveal_strlit("\"");
    let inner = snippet::quoted(value);
    let line = name + " = \""@ + inner + "\""@;
    let n = name.len() as int;
    lemma_clean_add(name, " = \""@);
    lemma_clean_add(name + " = \""@, inner);
    lemma_clean_add(name + " = \""@ + inner, "\""@);
    let p = |c: char| !is_bare(c);
    assert forall|i: int| 0 <= i < n implies !p(#[trigger] line[i]) by {
        assert(line[i] == name[i]);
    }
    assert(line[n] == ' ');
    search::lemma_first_index(line, p, n);
    assert(line.subrange(n, n + 4) =~= " = \""@);
    assert(line.subrange(n + 4, line.len() - 1) =~= inner);
    assert(line.take(n) =~= name);
    assert(line[0] == name[0]);
    snippet::law_quoted_text_reads_back(value);
}

/// A line in brackets with two names begins a table.
proof fn lemma_table(first: Seq<char>, second: Seq<char>)
    requires
        is_name(first),
        is_name(second),
    ensures
        is_clean(seq!['['] + first + seq!['.'] + second + seq![']']),
        read_line(seq!['['] + first + seq!['.'] + second + seq![']']) == Line::Table(
            seq![first, second],
        ),
{
    let line = seq!['['] + first + seq!['.'] + second + seq![']'];
    assert forall|i: int| 0 <= i < line.len() implies !is_control(#[trigger] line[i]) by {
        if 0 < i <= first.len() {
            assert(line[i] == first[i - 1]);
        } else if first.len() + 1 < i < line.len() - 1 {
            assert(line[i] == second[i - first.len() - 2]);
        }
    }
    let inner = first + seq!['.'] + second;
    assert(line.subrange(1, line.len() - 1) =~= inner);
    let nothing = Seq::<char>::empty();
    lemma_pieces_add(nothing, first, '.');
    assert(nothing + first =~= first);
    assert(text::pieces(first, '.') =~= seq![first]);
    lemma_pieces_push(first, '.');
    assert(first + seq!['.'] =~= first.push('.'));
    lemma_pieces_add(first.push('.'), second, '.');
    assert(seq![first].push(nothing).drop_last() =~= seq![first]);
    assert(nothing + second =~= second);
    assert(text::pieces(inner, '.') =~= seq![first, second]);
}

/// A comment says nothing.
proof fn lemma_comment(line: Seq<char>)
    requires
        is_clean(line),
        line.len() > 0,
        line[0] == '#',
    ensures
        read_line(line) is Nothing,
{
}

// ---------------------------------------------------------------------------
// The written rule
// ---------------------------------------------------------------------------
/// The texts of a window can be written down: no character may stand in no line but
/// the ends of lines of its title and bundle, which are escaped.
pub open spec fn can_be_written(subject: RuleSubject) -> bool {
    &&& is_writable(subject.title@)
    &&& is_writable(subject.bundle_id@)
    &&& is_clean(subject.app_name@)
    &&& is_clean(subject.role@)
    &&& is_clean(subject.subrole@)
}

/// The pattern of a title: just that title, or anything where there is none.
pub open spec fn pattern_of(title: Seq<char>) -> Seq<char> {
    if title.len() == 0 {
        ".*"@
    } else {
        "^"@ + snippet::escaped(title) + "$"@
    }
}

/// The matchers of the rule for a window.
pub open spec fn matchers(subject: RuleSubject) -> Seq<(Seq<char>, Seq<char>)> {
    let title = ("title"@, pattern_of(subject.title@));
    if subject.bundle_id@.len() == 0 {
        seq![title]
    } else {
        seq![("bundle_id"@, subject.bundle_id@), title]
    }
}

/// A pattern that is anchored at both ends, with no operator between, matches the
/// text that it stands for.
pub open spec fn is_matched(pattern: Seq<char>, title: Seq<char>) -> bool {
    &&& pattern.len() >= 2
    &&& pattern[0] == '^'
    &&& pattern.last() == '$'
    &&& snippet::literal(pattern.subrange(1, pattern.len() - 1)) == Some(title)
}

/// What identifies a window can stand in a line.
pub proof fn lemma_identity_is_clean(subject: RuleSubject)
    requires
        can_be_written(subject),
    ensures
        is_clean(snippet::spec_identity(subject)),
{
    reveal_strlit("app: ");
    reveal_strlit("  role: ");
    reveal_strlit("  subrole: ");
    reveal_strlit("?");
    let app = snippet::or_unknown(subject.app_name@);
    let role = snippet::or_unknown(subject.role@);
    let subrole = snippet::or_unknown(subject.subrole@);
    lemma_clean_add("app: "@, app);
    lemma_clean_add("app: "@ + app, "  role: "@);
    lemma_clean_add("app: "@ + app + "  role: "@, role);
    lemma_clean_add("app: "@ + app + "  role: "@ + role, "  subrole: "@);
    lemma_clean_add("app: "@ + app + "  role: "@ + role + "  subrole: "@, subrole);
}

/// The pattern of a title is written as its quotation, and can stand in a line.
pub proof fn lemma_pattern(title: Seq<char>)
    requires
        is_writable(title),
    ensures
        snippet::spec_title_pattern(title) == snippet::quoted(pattern_of(title)),
        is_clean(snippet::quoted(pattern_of(title))),
{
    reveal_strlit(".*");
    reveal_strlit("^");
    reveal_strlit("$");
    if title.len() == 0 {
        assert(snippet::quoted(".*"@) =~= ".*"@) by {
            reveal_with_fuel(snippet::quoted, 3);
            assert(".*"@.drop_last() =~= seq!['.']);
            assert(seq!['.'].drop_last() =~= Seq::empty());
        }
    } else {
        lemma_escaped_is_writable(title);
    }
    assert(is_writable(pattern_of(title)));
    lemma_quoted_is_clean(pattern_of(title));
}

/// The lines behind the matchers are comments.
#[verifier::rlimit(40)]
proof fn lemma_trailing_lines(subject: RuleSubject)
    requires
        can_be_written(subject),
    ensures
        ({
            let more = snippet::wildcard_lines(SnippetDialect::Toml, subject) + seq![
                "# "@ + snippet::spec_identity(subject),
                "# floating = true"@,
                "# manage = true"@,
                "# width = 0.5"@,
            ];
            forall|i: int|
                0 <= i < more.len() ==> is_clean(#[trigger] more[i]) && read_line(more[i])
                    is Nothing
        }),
{
    reveal_strlit("# title = \".*\"   # all windows of this app");
    reveal_strlit("# ");
    reveal_strlit("# floating = true");
    reveal_strlit("# manage = true");
    reveal_strlit("# width = 0.5");
    lemma_identity_is_clean(subject);
    lemma_clean_add("# "@, snippet::spec_identity(subject));
    let wildcard = snippet::wildcard_lines(SnippetDialect::Toml, subject);
    let rest = seq![
        "# "@ + snippet::spec_identity(subject),
        "# floating = true"@,
        "# manage = true"@,
        "# width = 0.5"@,
    ];
    assert forall|i: int| 0 <= i < (wildcard + rest).len() implies is_clean(
        #[trigger] (wildcard + rest)[i],
    ) && read_line((wildcard + rest)[i]) is Nothing by {
        if i >= wildcard.len() {
            assert((wildcard + rest)[i] == rest[i - wildcard.len()]);
        }
        lemma_comment((wildcard + rest)[i]);
    }
}

/// The document that is written for a window holds one rule and nothing else: a
/// table under `windows` with the bundle, where it is known, and a pattern of the
/// title as its matchers.
#[verifier::rlimit(40)]
pub proof fn law_document_holds_the_rule(subject: RuleSubject)
    requires
        can_be_written(subject),
    ensures
        read_document(snippet::ended(snippet::snippet_lines(SnippetDialect::Toml, subject))) == Some(
            seq![
                Table {
                    name: seq!["windows"@, snippet::spec_rule_key(subject.app_name@)],
                    entries: matchers(subject),
                },
            ],
        ),
{
    let toml = SnippetDialect::Toml;
    let key = snippet::spec_rule_key(subject.app_name@);
    let pattern = pattern_of(subject.title@);
    let lines = snippet::snippet_lines(toml, subject);
    let header = "[windows."@ + key + "]"@;
    let bundle = snippet::bundle_line(toml, subject);
    let title = "title = \""@ + snippet::spec_title_pattern(subject.title@) + "\""@;
    let more = snippet::wildcard_lines(toml, subject) + seq![
        "# "@ + snippet::spec_identity(subject),
        "# floating = true"@,
        "# manage = true"@,
        "# width = 0.5"@,
    ];
    assert(lines =~= seq![header, bundle, title] + more);
    lemma_trailing_lines(subject);
    // The header.
    snippet::law_rule_key_is_a_bare_name(subject.app_name@);
    reveal_strlit("[windows.");
    reveal_strlit("windows");
    reveal_strlit("]");
    assert(is_name(key)) by {
        assert forall|i: int| 0 <= i < key.len() implies is_bare(#[trigger] key[i]) by {
            assert(snippet::is_key_char(key[i]));
        }
    }
    assert(header =~= seq!['['] + "windows"@ + seq!['.'] + key + seq![']']);
    lemma_table("windows"@, key);
    // The bundle.
    reveal_strlit("bundle_id = \"");
    reveal_strlit("bundle_id");
    reveal_strlit("\"");
    reveal_strlit(" = \"");
    reveal_strlit("# bundle_id = \"\"   # unknown; rule matches every app");
    if subject.bundle_id@.len() == 0 {
        lemma_comment(bundle);
    } else {
        lemma_quoted_is_clean(subject.bundle_id@);
        lemma_entry("bundle_id"@, subject.bundle_id@);
        assert("bundle_id"@ + " = \""@ =~= "bundle_id = \""@);
    }
    // The title.
    reveal_strlit("title = \"");
    reveal_strlit("title");
    assert("title"@ + " = \""@ =~= "title = \""@);
    lemma_pattern(subject.title@);
    lemma_entry("title"@, pattern);
    // The lines one after the other.
    let all = lines.push(Seq::empty());
    assert forall|k: int, i: int| 0 <= k < lines.len() && 0 <= i < lines[k].len() implies
        #[trigger] lines[k][i] != '\n' by {
        assert(is_clean(lines[k])) by {
            if k >= 3 {
                assert(lines[k] == more[k - 3]);
            }
        }
        assert(!is_control(lines[k][i]));
    }
    lemma_written_lines(lines);
    let nothing = Seq::<Seq<char>>::empty();
    lemma_one_more(nothing, header);
    lemma_one_more(nothing.push(header), bundle);
    lemma_one_more(nothing.push(header).push(bundle), title);
    let live = nothing.push(header).push(bundle).push(title);
    let silent = more.push(Seq::empty());
    assert forall|i: int| 0 <= i < silent.len() implies read_line(#[trigger] silent[i]) is Nothing by {
        if i < more.len() {
            assert(silent[i] == more[i]);
        }
    }
    lemma_comments(live, silent);
    assert(all =~= live + silent);
    let name = seq!["windows"@, key];
    let begun = seq![Table { name, entries: Seq::empty() }];
    assert(read_lines(nothing.push(header)) == Some(begun)) by {
        assert(Seq::<Table>::empty().push(begun[0]) =~= begun);
    }
    let whole = seq![Table { name, entries: matchers(subject) }];
    if subject.bundle_id@.len() == 0 {
        assert(Seq::empty().push(("title"@, pattern)) =~= matchers(subject));
        assert(begun.drop_last().push(whole[0]) =~= whole);
    } else {
        let first = ("bundle_id"@, subject.bundle_id@);
        let half = Table { name, entries: seq![first] };
        assert(Seq::empty().push(first) =~= seq![first]);
        assert(begun.drop_last().push(half) =~= seq![half]);
        assert(read_lines(nothing.push(header).push(bundle)) == Some(seq![half]));
        assert("bundle_id"@ != "title"@) by {
            assert("bundle_id"@.len() != "title"@.len());
        }
        assert(seq![first].push(("title"@, pattern)) =~= matchers(subject));
        assert(seq![half].drop_last().push(whole[0]) =~= whole);
    }
}

/// The pattern of a rule matches the title of its window, and no other.
pub proof fn law_rule_matches_just_its_title(title: Seq<char>, other: Seq<char>)
    requires
        title.len() > 0,
    ensures
        is_matched(pattern_of(title), other) <==> other == title,
{
    reveal_strlit("^");
    reveal_strlit("$");
    let pattern = pattern_of(title);
    assert(pattern.subrange(1, pattern.len() - 1) =~= snippet::escaped(title));
    snippet::law_escaped_title_is_literal(title);
}

} // verus!
