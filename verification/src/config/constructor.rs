//! How the rules of a script read: the lines that a table of rules is written with in
//! Lua, and what they say.
use vstd::prelude::*;
use vstd::string::*;

use crate::config::document;
use crate::config::document::{Line, Table};
use crate::config::snippet;
use crate::config::snippet::{RuleSubject, SnippetDialect};
use crate::search;
use crate::text;

verus! {

/// A word of the language, which can be no name.
pub open spec fn is_reserved(name: Seq<char>) -> bool {
    ||| name == "and"@
    ||| name == "break"@
    ||| name == "do"@
    ||| name == "else"@
    ||| name == "elseif"@
    ||| name == "end"@
    ||| name == "false"@
    ||| name == "for"@
    ||| name == "function"@
    ||| name == "goto"@
    ||| name == "if"@
    ||| name == "in"@
    ||| name == "local"@
    ||| name == "nil"@
    ||| name == "not"@
    ||| name == "or"@
    ||| name == "repeat"@
    ||| name == "return"@
    ||| name == "then"@
    ||| name == "true"@
    ||| name == "until"@
    ||| name == "while"@
}

/// A name: letters, digits and underscores, with no digit first, and no word of the
/// language.
pub open spec fn is_identifier(name: Seq<char>) -> bool {
    &&& name.len() > 0
    &&& !snippet::is_digit(name[0])
    &&& forall|i: int|
        0 <= i < name.len() ==> snippet::is_plain(#[trigger] name[i]) || name[i] == '_'
    &&& !is_reserved(name)
}

/// A line without the spaces that it begins with.
pub open spec fn unindented(line: Seq<char>) -> Seq<char>
    decreases line.len(),
{
    if line.len() > 0 && line[0] == ' ' {
        unindented(line.drop_first())
    } else {
        line
    }
}

/// What a line says.
pub enum Part {
    /// It is empty or a comment.
    Nothing,
    /// A table with this name begins.
    Open(Seq<char>),
    /// A text behind its name.
    Entry(Seq<char>, Seq<char>),
    /// The inner table ends.
    CloseInner,
    /// The outer table ends.
    CloseOuter,
    /// It cannot be read.
    Unreadable,
}

/// What a line says that begins with a name: a table that begins, or a text and a
/// comma.
pub open spec fn read_named(line: Seq<char>) -> Part {
    let n = document::name_end(line);
    let name = line.take(n);
    if !is_identifier(name) {
        Part::Unreadable
    } else if line.skip(n) == " = {"@ {
        Part::Open(name)
    } else if line.last() == ',' {
        match document::read_entry(line.drop_last()) {
            Line::Entry(name, value) => Part::Entry(name, value),
            _ => Part::Unreadable,
        }
    } else {
        Part::Unreadable
    }
}

/// What a line says. A comment begins with two dashes; a bracket behind them would make
/// it a long one.
pub open spec fn read_part(indented: Seq<char>) -> Part {
    let line = unindented(indented);
    if line.len() == 0 {
        Part::Nothing
    } else if line.len() >= 2 && line[0] == '-' && line[1] == '-' && (line.len() == 2 || line[2]
        != '[') {
        Part::Nothing
    } else if line == "},"@ {
        Part::CloseInner
    } else if line == "}"@ {
        Part::CloseOuter
    } else {
        read_named(line)
    }
}

/// What was read: the names of the tables that are not closed yet, and the inner
/// tables.
pub struct Reading {
    pub open: Seq<Seq<char>>,
    pub tables: Seq<Table>,
}

/// What was read after one more line. Texts stand in tables of tables only, and no name
/// is given twice.
pub open spec fn with_part(reading: Option<Reading>, part: Part) -> Option<Reading> {
    match (reading, part) {
        (None, _) => None,
        (Some(_), Part::Unreadable) => None,
        (Some(reading), Part::Nothing) => Some(reading),
        (Some(reading), Part::Open(name)) => {
            let open = reading.open.push(name);
            if reading.open.len() == 0 {
                Some(Reading { open, ..reading })
            } else if reading.open.len() == 1 && !exists|i: int|
                0 <= i < reading.tables.len() && (#[trigger] reading.tables[i]).name == open {
                Some(
                    Reading {
                        open,
                        tables: reading.tables.push(Table { name: open, entries: Seq::empty() }),
                    },
                )
            } else {
                None
            }
        },
        (Some(reading), Part::Entry(name, value)) => if reading.open.len() == 2 {
            match document::with_line(Some(reading.tables), Line::Entry(name, value)) {
                Some(tables) => Some(Reading { tables, ..reading }),
                None => None,
            }
        } else {
            None
        },
        (Some(reading), Part::CloseInner) => if reading.open.len() == 2 {
            Some(Reading { open: reading.open.drop_last(), ..reading })
        } else {
            None
        },
        (Some(reading), Part::CloseOuter) => if reading.open.len() == 1 {
            Some(Reading { open: reading.open.drop_last(), ..reading })
        } else {
            None
        },
    }
}

/// What some lines say.
pub open spec fn read_parts(lines: Seq<Seq<char>>) -> Option<Reading>
    decreases lines.len(),
{
    if lines.len() == 0 {
        Some(Reading { open: Seq::empty(), tables: Seq::empty() })
    } else {
        with_part(read_parts(lines.drop_last()), read_part(lines.last()))
    }
}

/// The tables that a text holds: none if one of them is not closed.
pub open spec fn read_constructor(document: Seq<char>) -> Option<Seq<Table>> {
    match read_parts(text::pieces(document, '\n')) {
        Some(reading) => if reading.open.len() == 0 {
            Some(reading.tables)
        } else {
            None
        },
        None => None,
    }
}

/// One more line.
proof fn lemma_one_more(lines: Seq<Seq<char>>, line: Seq<char>)
    ensures
        read_parts(lines.push(line)) == with_part(read_parts(lines), read_part(line)),
{
    assert(lines.push(line).drop_last() =~= lines);
}

/// Lines that say nothing change nothing.
proof fn lemma_comments(lines: Seq<Seq<char>>, more: Seq<Seq<char>>)
    requires
        forall|i: int| 0 <= i < more.len() ==> read_part(#[trigger] more[i]) is Nothing,
    ensures
        read_parts(lines + more) == read_parts(lines),
    decreases more.len(),
{
    if more.len() == 0 {
        assert(lines + more =~= lines);
    } else {
        let front = more.drop_last();
        assert forall|i: int| 0 <= i < front.len() implies read_part(#[trigger] front[i])
            is Nothing by {
            assert(front[i] == more[i]);
        }
        lemma_comments(lines, front);
        assert((lines + more).drop_last() =~= lines + front);
        assert(read_part(more[more.len() - 1]) is Nothing);
    }
}

/// Spaces before a line that has none are not read.
proof fn lemma_unindented(spaces: Seq<char>, line: Seq<char>)
    requires
        forall|i: int| 0 <= i < spaces.len() ==> #[trigger] spaces[i] == ' ',
        line.len() > 0,
        line[0] != ' ',
    ensures
        unindented(spaces + line) == line,
    decreases spaces.len(),
{
    if spaces.len() == 0 {
        assert(spaces + line =~= line);
    } else {
        let rest = spaces.drop_first();
        assert forall|i: int| 0 <= i < rest.len() implies #[trigger] rest[i] == ' ' by {
            assert(rest[i] == spaces[i + 1]);
        }
        lemma_unindented(rest, line);
        assert((spaces + line).drop_first() =~= rest + line);
        assert((spaces + line)[0] == spaces[0]);
    }
}

/// Where a name is followed by another character, the name ends.
proof fn lemma_name_end(name: Seq<char>, rest: Seq<char>)
    requires
        is_identifier(name),
        rest.len() > 0,
        !document::is_bare(rest[0]),
    ensures
        document::name_end(name + rest) == name.len(),
        (name + rest).take(name.len() as int) == name,
        (name + rest).skip(name.len() as int) == rest,
{
    let line = name + rest;
    let n = name.len() as int;
    let p = |c: char| !document::is_bare(c);
    assert forall|i: int| 0 <= i < n implies !p(#[trigger] line[i]) by {
        assert(line[i] == name[i]);
    }
    assert(line[n] == rest[0]);
    search::lemma_first_index(line, p, n);
    assert(line.take(n) =~= name);
    assert(line.skip(n) =~= rest);
}

/// A name, an equals sign and a brace begin a table.
proof fn lemma_open(spaces: Seq<char>, name: Seq<char>)
    requires
        forall|i: int| 0 <= i < spaces.len() ==> #[trigger] spaces[i] == ' ',
        is_identifier(name),
    ensures
        read_part(spaces + (name + " = {"@)) == Part::Open(name),
{
    reveal_strlit(" = {");
    reveal_strlit("},");
    reveal_strlit("}");
    let line = name + " = {"@;
    assert(line[0] == name[0]);
    lemma_unindented(spaces, line);
    lemma_name_end(name, " = {"@);
}

/// A name, an equals sign, a quoted text and a comma are an entry.
proof fn lemma_entry(spaces: Seq<char>, name: Seq<char>, value: Seq<char>)
    requires
        forall|i: int| 0 <= i < spaces.len() ==> #[trigger] spaces[i] == ' ',
        is_identifier(name),
        document::is_clean(snippet::quoted(value)),
    ensures
        read_part(spaces + (name + " = \""@ + snippet::quoted(value) + "\","@)) == Part::Entry(
            name,
            value,
        ),
{
    reveal_strlit(" = \"");
    reveal_strlit(" = {");
    reveal_strlit("\",");
    reveal_strlit("\"");
    reveal_strlit("},");
    reveal_strlit("}");
    let inner = snippet::quoted(value);
    let line = name + " = \""@ + inner + "\","@;
    let rest = " = \""@ + inner + "\","@;
    assert(line =~= name + rest);
    assert(line[0] == name[0]);
    lemma_unindented(spaces, line);
    lemma_name_end(name, rest);
    assert(rest[3] == '"');
    let entry = name + " = \""@ + inner + "\""@;
    assert(line.drop_last() =~= entry);
    let tail = " = \""@ + inner + "\""@;
    assert(entry =~= name + tail);
    lemma_name_end(name, tail);
    let n = name.len() as int;
    assert(entry.subrange(n, n + 4) =~= " = \""@);
    assert(entry.subrange(n + 4, entry.len() - 1) =~= inner);
    snippet::law_quoted_text_reads_back(value);
}

/// Two dashes and a space begin a comment.
proof fn lemma_comment(spaces: Seq<char>, line: Seq<char>)
    requires
        forall|i: int| 0 <= i < spaces.len() ==> #[trigger] spaces[i] == ' ',
        line.len() > 2,
        line[0] == '-',
        line[1] == '-',
        line[2] == ' ',
    ensures
        read_part(spaces + line) is Nothing,
{
    lemma_unindented(spaces, line);
}

/// A name with its indentation and its text can stand in a line.
proof fn lemma_clean_line(before: Seq<char>, inner: Seq<char>, after: Seq<char>)
    requires
        document::is_clean(before),
        document::is_clean(inner),
        document::is_clean(after),
    ensures
        document::is_clean(before + inner + after),
{
    document::lemma_clean_add(before, inner);
    document::lemma_clean_add(before + inner, after);
}

/// The lines behind the matchers are comments.
#[verifier::rlimit(40)]
proof fn lemma_trailing_lines(subject: RuleSubject)
    requires
        document::can_be_written(subject),
    ensures
        ({
            let more = snippet::wildcard_lines(SnippetDialect::Lua, subject) + seq![
                "    -- "@ + snippet::spec_identity(subject),
                "    -- floating = true,"@,
                "    -- manage = true,"@,
                "    -- width = 0.5,"@,
            ];
            forall|i: int|
                0 <= i < more.len() ==> document::is_clean(#[trigger] more[i]) && read_part(
                    more[i],
                ) is Nothing
        }),
{
    reveal_strlit("    -- title = \".*\",   -- all windows of this app");
    reveal_strlit("    -- ");
    reveal_strlit("    -- floating = true,");
    reveal_strlit("    -- manage = true,");
    reveal_strlit("    -- width = 0.5,");
    document::lemma_identity_is_clean(subject);
    document::lemma_clean_add("    -- "@, snippet::spec_identity(subject));
    let spaces = seq![' ', ' ', ' ', ' '];
    let wildcard = snippet::wildcard_lines(SnippetDialect::Lua, subject);
    let rest = seq![
        "    -- "@ + snippet::spec_identity(subject),
        "    -- floating = true,"@,
        "    -- manage = true,"@,
        "    -- width = 0.5,"@,
    ];
    assert forall|i: int| 0 <= i < (wildcard + rest).len() implies document::is_clean(
        #[trigger] (wildcard + rest)[i],
    ) && read_part((wildcard + rest)[i]) is Nothing by {
        let line = (wildcard + rest)[i];
        if i >= wildcard.len() {
            assert(line == rest[i - wildcard.len()]);
        }
        assert(line =~= spaces + line.skip(4));
        lemma_comment(spaces, line.skip(4));
    }
}

/// The first lines begin the two tables.
proof fn lemma_headers(key: Seq<char>)
    requires
        is_identifier(key),
    ensures
        read_part("windows = {"@) == Part::Open("windows"@),
        read_part("  "@ + key + " = {"@) == Part::Open(key),
        document::is_clean("windows = {"@),
        document::is_clean("  "@ + key + " = {"@),
{
    reveal_strlit("windows = {");
    reveal_strlit("windows");
    reveal_strlit(" = {");
    reveal_strlit("  ");
    lemma_no_word();
    let none = Seq::<char>::empty();
    let two = seq![' ', ' '];
    assert("windows = {"@ =~= none + ("windows"@ + " = {"@));
    lemma_open(none, "windows"@);
    assert("  "@ + key + " = {"@ =~= two + (key + " = {"@));
    lemma_open(two, key);
    assert(document::is_clean(key)) by {
        assert forall|i: int| 0 <= i < key.len() implies !document::is_control(
            #[trigger] key[i],
        ) by {
            assert(snippet::is_plain(key[i]) || key[i] == '_');
        }
    }
    lemma_clean_line("  "@, key, " = {"@);
}

/// The line for a bundle that is not known is a comment.
proof fn lemma_unknown_bundle()
    ensures
        ({
            let line = "    -- bundle_id = \"\",   -- unknown; rule matches every app"@;
            document::is_clean(line) && read_part(line) is Nothing
        }),
{
    let line = "    -- bundle_id = \"\",   -- unknown; rule matches every app"@;
    let four = seq![' ', ' ', ' ', ' '];
    reveal_strlit("    -- bundle_id = \"\",   -- unknown; rule matches every app");
    lemma_comment(four, line.skip(4));
    assert(line =~= four + line.skip(4));
}

/// The line for a bundle says what it is.
proof fn lemma_known_bundle(bundle_id: Seq<char>)
    requires
        document::is_writable(bundle_id),
    ensures
        ({
            let line = "    bundle_id = \""@ + snippet::quoted(bundle_id) + "\","@;
            document::is_clean(line) && read_part(line) == Part::Entry("bundle_id"@, bundle_id)
        }),
{
    let four = seq![' ', ' ', ' ', ' '];
    let inner = snippet::quoted(bundle_id);
    let line = "    bundle_id = \""@ + inner + "\","@;
    lemma_no_word();
    document::lemma_quoted_is_clean(bundle_id);
    lemma_entry(four, "bundle_id"@, bundle_id);
    reveal_strlit("    bundle_id = \"");
    reveal_strlit("bundle_id");
    reveal_strlit("\",");
    reveal_strlit(" = \"");
    assert(line =~= four + ("bundle_id"@ + " = \""@ + inner + "\","@));
    lemma_clean_line("    bundle_id = \""@, inner, "\","@);
}

/// The line with the title says its pattern.
proof fn lemma_title(title: Seq<char>)
    requires
        document::is_writable(title),
    ensures
        ({
            let line = "    title = \""@ + snippet::spec_title_pattern(title) + "\","@;
            &&& document::is_clean(line)
            &&& read_part(line) == Part::Entry("title"@, document::pattern_of(title))
        }),
{
    let four = seq![' ', ' ', ' ', ' '];
    let pattern = document::pattern_of(title);
    let line = "    title = \""@ + snippet::spec_title_pattern(title) + "\","@;
    reveal_strlit("    title = \"");
    reveal_strlit("title");
    reveal_strlit("\",");
    reveal_strlit(" = \"");
    lemma_no_word();
    document::lemma_pattern(title);
    lemma_entry(four, "title"@, pattern);
    assert(line =~= four + ("title"@ + " = \""@ + snippet::quoted(pattern) + "\","@));
    lemma_clean_line("    title = \""@, snippet::quoted(pattern), "\","@);
}

/// The last lines close the two tables.
proof fn lemma_ends()
    ensures
        read_part("  },"@) is CloseInner,
        read_part("}"@) is CloseOuter,
        read_part(Seq::empty()) is Nothing,
        document::is_clean("  },"@),
        document::is_clean("}"@),
{
    reveal_strlit("  },");
    reveal_strlit("},");
    reveal_strlit("}");
    let none = Seq::<char>::empty();
    let two = seq![' ', ' '];
    assert("  },"@ =~= two + "},"@);
    lemma_unindented(two, "},"@);
    assert(none + "}"@ =~= "}"@);
    lemma_unindented(none, "}"@);
    assert("},"@ != "}"@) by {
        assert("},"@.len() != "}"@.len());
    }
}

/// Lines that begin two tables, give the matchers and close the tables hold one rule.
#[verifier::rlimit(40)]
proof fn lemma_rule_lines(
    subject: RuleSubject,
    key: Seq<char>,
    outer: Seq<char>,
    header: Seq<char>,
    bundle: Seq<char>,
    title: Seq<char>,
    more: Seq<Seq<char>>,
)
    requires
        read_part(outer) == Part::Open("windows"@),
        read_part(header) == Part::Open(key),
        subject.bundle_id@.len() == 0 ==> read_part(bundle) is Nothing,
        subject.bundle_id@.len() > 0 ==> read_part(bundle) == Part::Entry(
            "bundle_id"@,
            subject.bundle_id@,
        ),
        read_part(title) == Part::Entry("title"@, document::pattern_of(subject.title@)),
        forall|i: int| 0 <= i < more.len() ==> read_part(#[trigger] more[i]) is Nothing,
    ensures
        read_parts(seq![outer, header, bundle, title] + more) == Some(
            Reading {
                open: seq!["windows"@, key],
                tables: seq![
                    Table {
                        name: seq!["windows"@, key],
                        entries: document::matchers(subject),
                    },
                ],
            },
        ),
{
    let pattern = document::pattern_of(subject.title@);
    let start = Seq::<Seq<char>>::empty();
    let live = start.push(outer).push(header).push(bundle).push(title);
    lemma_one_more(start, outer);
    lemma_one_more(start.push(outer), header);
    lemma_one_more(start.push(outer).push(header), bundle);
    lemma_one_more(start.push(outer).push(header).push(bundle), title);
    assert(seq![outer, header, bundle, title] =~= live);
    lemma_comments(live, more);
    let name = seq!["windows"@, key];
    let first = Seq::<Seq<char>>::empty().push("windows"@);
    assert(first.push(key) =~= name);
    let begun = seq![Table { name, entries: Seq::empty() }];
    assert(Seq::<Table>::empty().push(begun[0]) =~= begun);
    assert(read_parts(start.push(outer).push(header)) == Some(
        Reading { open: name, tables: begun },
    ));
    let whole = seq![Table { name, entries: document::matchers(subject) }];
    if subject.bundle_id@.len() == 0 {
        assert(Seq::empty().push(("title"@, pattern)) =~= document::matchers(subject));
        assert(begun.drop_last().push(whole[0]) =~= whole);
    } else {
        let entry = ("bundle_id"@, subject.bundle_id@);
        let half = Table { name, entries: seq![entry] };
        assert(Seq::empty().push(entry) =~= seq![entry]);
        assert(begun.drop_last().push(half) =~= seq![half]);
        assert("bundle_id"@ != "title"@) by {
            reveal_strlit("bundle_id");
            reveal_strlit("title");
            assert("bundle_id"@.len() != "title"@.len());
        }
        assert(seq![entry].push(("title"@, pattern)) =~= document::matchers(subject));
        assert(seq![half].drop_last().push(whole[0]) =~= whole);
    }
}

/// The text that is written for a window in Lua holds one rule and nothing else: a
/// table under `windows` with the bundle, where it is known, and a pattern of the
/// title as its matchers. The key of the rule may be no word of the language.
#[verifier::rlimit(40)]
pub proof fn law_constructor_holds_the_rule(subject: RuleSubject)
    requires
        document::can_be_written(subject),
        !is_reserved(snippet::spec_rule_key(subject.app_name@)),
    ensures
        read_constructor(snippet::ended(snippet::snippet_lines(SnippetDialect::Lua, subject)))
            == Some(
            seq![
                Table {
                    name: seq!["windows"@, snippet::spec_rule_key(subject.app_name@)],
                    entries: document::matchers(subject),
                },
            ],
        ),
{
    let lua = SnippetDialect::Lua;
    let key = snippet::spec_rule_key(subject.app_name@);
    let lines = snippet::snippet_lines(lua, subject);
    let outer = "windows = {"@;
    let header = "  "@ + key + " = {"@;
    let bundle = snippet::bundle_line(lua, subject);
    let title = "    title = \""@ + snippet::spec_title_pattern(subject.title@) + "\","@;
    let more = snippet::wildcard_lines(lua, subject) + seq![
        "    -- "@ + snippet::spec_identity(subject),
        "    -- floating = true,"@,
        "    -- manage = true,"@,
        "    -- width = 0.5,"@,
    ];
    let ending = seq!["  },"@, "}"@];
    let live = seq![outer, header, bundle, title] + more;
    assert(lines =~= live + ending);
    snippet::law_rule_key_is_a_bare_name(subject.app_name@);
    assert(is_identifier(key)) by {
        assert forall|i: int| 0 <= i < key.len() implies snippet::is_plain(#[trigger] key[i])
            || key[i] == '_' by {
            assert(snippet::is_key_char(key[i]));
        }
    }
    lemma_headers(key);
    if subject.bundle_id@.len() == 0 {
        lemma_unknown_bundle();
    } else {
        lemma_known_bundle(subject.bundle_id@);
    }
    lemma_title(subject.title@);
    lemma_trailing_lines(subject);
    lemma_ends();
    lemma_rule_lines(subject, key, outer, header, bundle, title, more);
    assert forall|k: int, i: int| 0 <= k < lines.len() && 0 <= i < lines[k].len() implies
        #[trigger] lines[k][i] != '\n' by {
        assert(document::is_clean(lines[k])) by {
            if 4 <= k < 4 + more.len() {
                assert(lines[k] == more[k - 4]);
            } else if k >= 4 + more.len() {
                assert(lines[k] == ending[k - 4 - more.len()]);
            }
        }
        assert(!document::is_control(lines[k][i]));
    }
    document::lemma_written_lines(lines);
    lemma_one_more(live, "  },"@);
    lemma_one_more(live.push("  },"@), "}"@);
    lemma_one_more(live.push("  },"@).push("}"@), Seq::empty());
    assert(lines.push(Seq::empty()) =~= live.push("  },"@).push("}"@).push(Seq::empty()));
    assert(seq!["windows"@, key].drop_last().drop_last() =~= Seq::empty());
}

/// The names that every rule is written with are no words of the language.
proof fn lemma_no_word()
    ensures
        is_identifier("windows"@),
        is_identifier("bundle_id"@),
        is_identifier("title"@),
{
    reveal_strlit("windows");
    reveal_strlit("bundle_id");
    reveal_strlit("title");
    reveal_strlit("and");
    reveal_strlit("break");
    reveal_strlit("do");
    reveal_strlit("else");
    reveal_strlit("elseif");
    reveal_strlit("end");
    reveal_strlit("false");
    reveal_strlit("for");
    reveal_strlit("function");
    reveal_strlit("goto");
    reveal_strlit("if");
    reveal_strlit("in");
    reveal_strlit("local");
    reveal_strlit("nil");
    reveal_strlit("not");
    reveal_strlit("or");
    reveal_strlit("repeat");
    reveal_strlit("return");
    reveal_strlit("then");
    reveal_strlit("true");
    reveal_strlit("until");
    reveal_strlit("while");
    assert("windows"@[0] == 'w' && "bundle_id"@[0] == 'b' && "title"@[0] == 't');
    assert("while"@[1] == 'h' && "windows"@[1] == 'i');
    assert("break"@[1] == 'r' && "bundle_id"@[1] == 'u');
    assert("then"@[1] == 'h' && "true"@[1] == 'r' && "title"@[1] == 'i');
    assert("and"@[0] == 'a' && "do"@[0] == 'd' && "else"@[0] == 'e' && "elseif"@[0] == 'e');
    assert("end"@[0] == 'e' && "false"@[0] == 'f' && "for"@[0] == 'f' && "function"@[0] == 'f');
    assert("goto"@[0] == 'g' && "if"@[0] == 'i' && "in"@[0] == 'i' && "local"@[0] == 'l');
    assert("nil"@[0] == 'n' && "not"@[0] == 'n' && "or"@[0] == 'o' && "repeat"@[0] == 'r');
    assert("return"@[0] == 'r' && "until"@[0] == 'u');
}

} // verus!
