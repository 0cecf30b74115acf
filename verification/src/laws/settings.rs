//! What is configured: texts that are read, keys, reloading, and pauses.
use vstd::prelude::*;

use crate::clock::Duration;
use crate::config;
use crate::config::{BindingModel, Config, Keybinding, RawConfig};
use crate::config_reload;
use crate::config_reload::Refresh;
use crate::errors::Error;
use crate::geometry;
use crate::lua;
use crate::lua::FilePath;
use crate::params;
use crate::params::{DebouncedSystem, ThrottledSystem};
use crate::search;
use crate::text;

verus! {

// ---------------------------------------------------------------------------
// Texts
// ---------------------------------------------------------------------------
/// A separator parts a text into what is before it and what is behind it.
pub proof fn law_separator_parts_a_text(a: Seq<char>, b: Seq<char>, separator: char)
    ensures
        text::pieces(a.push(separator) + b, separator) == text::pieces(a, separator)
            + text::pieces(b, separator),
    decreases b.len(),
{
    let whole = a.push(separator) + b;
    if b.len() == 0 {
        assert(whole =~= a.push(separator));
        assert(whole.drop_last() =~= a);
        assert(b =~= Seq::empty());
        assert(text::pieces(b, separator) =~= seq![Seq::<char>::empty()]);
        assert(text::pieces(whole, separator) =~= text::pieces(a, separator) + text::pieces(
            b,
            separator,
        ));
    } else {
        let shorter = b.drop_last();
        law_separator_parts_a_text(a, shorter, separator);
        lemma_some_piece(shorter, separator);
        assert(whole.drop_last() =~= a.push(separator) + shorter);
        let (x, y) = (text::pieces(a, separator), text::pieces(shorter, separator));
        assert((x + y).last() == y.last());
        assert((x + y).drop_last() =~= x + y.drop_last());
        assert(text::pieces(whole, separator) =~= x + text::pieces(b, separator));
    }
}

/// There is always a piece.
proof fn lemma_some_piece(text: Seq<char>, separator: char)
    ensures
        text::pieces(text, separator).len() > 0,
    decreases text.len(),
{
    if text.len() > 0 {
        lemma_some_piece(text.drop_last(), separator);
    }
}

/// A text without a separator is one piece.
pub proof fn law_text_without_separator_is_one_piece(text: Seq<char>, separator: char)
    requires
        forall|i: int| 0 <= i < text.len() ==> #[trigger] text[i] != separator,
    ensures
        text::pieces(text, separator) == seq![text],
    decreases text.len(),
{
    if text.len() > 0 {
        let front = text.drop_last();
        assert forall|i: int| 0 <= i < front.len() implies #[trigger] front[i] != separator by {
            assert(front[i] == text[i]);
        }
        law_text_without_separator_is_one_piece(front, separator);
        assert(front.push(text.last()) =~= text);
        assert(text::pieces(text, separator) =~= seq![text]);
    }
}

/// The number that digits stand for.
pub open spec fn value(digits: Seq<char>) -> int
    decreases digits.len(),
{
    if digits.len() == 0 {
        0
    } else {
        10 * value(digits.drop_last()) + (digits.last() as int - '0' as int)
    }
}

/// A number that is written down in digits is the number that they stand for.
pub proof fn law_digits_stand_for_their_number(n: nat)
    ensures
        value(text::decimal(n)) == n,
    decreases n,
{
    let digits = text::decimal(n);
    if n < 10 {
        assert(digits.drop_last() =~= Seq::empty());
        assert(value(digits.drop_last()) == 0);
        assert(digits.last() == text::digit(n));
    } else {
        law_digits_stand_for_their_number(n / 10);
        assert(digits.drop_last() =~= text::decimal(n / 10));
        assert(digits.last() == text::digit(n % 10));
    }
}

// ---------------------------------------------------------------------------
// Keys
// ---------------------------------------------------------------------------
/// Each modifier has a bit of its own, which is set once however often it is named.
pub proof fn law_each_modifier_has_its_bit(names: Seq<Seq<char>>)
    ensures
        config::mask(Seq::empty()) == 0,
        config::mask(names.push("alt"@)) - config::mask(names) == if names.contains("alt"@) {
            0int
        } else {
            1int
        },
        config::mask(names.push("shift"@)) - config::mask(names) == if names.contains("shift"@) {
            0int
        } else {
            2int
        },
        config::mask(names.push("cmd"@)) - config::mask(names) == if names.contains("cmd"@) {
            0int
        } else {
            4int
        },
        config::mask(names.push("ctrl"@)) - config::mask(names) == if names.contains("ctrl"@) {
            0int
        } else {
            8int
        },
{
    reveal_strlit("alt");
    reveal_strlit("shift");
    reveal_strlit("cmd");
    reveal_strlit("ctrl");
    assert("cmd"@[0] != "alt"@[0]);
    assert("alt"@.len() == 3 && "shift"@.len() == 5 && "cmd"@.len() == 3 && "ctrl"@.len() == 4);
    lemma_contains_pushed(names, "alt"@, "alt"@);
    lemma_contains_pushed(names, "alt"@, "shift"@);
    lemma_contains_pushed(names, "alt"@, "cmd"@);
    lemma_contains_pushed(names, "alt"@, "ctrl"@);
    lemma_contains_pushed(names, "shift"@, "alt"@);
    lemma_contains_pushed(names, "shift"@, "shift"@);
    lemma_contains_pushed(names, "shift"@, "cmd"@);
    lemma_contains_pushed(names, "shift"@, "ctrl"@);
    lemma_contains_pushed(names, "cmd"@, "alt"@);
    lemma_contains_pushed(names, "cmd"@, "shift"@);
    lemma_contains_pushed(names, "cmd"@, "cmd"@);
    lemma_contains_pushed(names, "cmd"@, "ctrl"@);
    lemma_contains_pushed(names, "ctrl"@, "alt"@);
    lemma_contains_pushed(names, "ctrl"@, "shift"@);
    lemma_contains_pushed(names, "ctrl"@, "cmd"@);
    lemma_contains_pushed(names, "ctrl"@, "ctrl"@);
}

/// What a list holds with one more element.
proof fn lemma_contains_pushed<A>(s: Seq<A>, x: A, y: A)
    ensures
        s.push(x).contains(y) <==> s.contains(y) || x == y,
{
    let all = s.push(x);
    if s.contains(y) {
        let i = choose|i: int| 0 <= i < s.len() && s[i] == y;
        assert(all[i] == y);
    }
    if x == y {
        assert(all[s.len() as int] == y);
    }
    if all.contains(y) && x != y {
        let i = choose|i: int| 0 <= i < all.len() && all[i] == y;
        assert(s[i] == y);
    }
}

/// The text of a binding gives its modifiers before the dash and its key behind it, both
/// without white space around them; a text without a dash is a key alone.
pub proof fn law_binding_gives_modifiers_and_key(
    modifiers: Seq<char>,
    key: Seq<char>,
    binding: Result<Keybinding, String>,
)
    requires
        forall|i: int| 0 <= i < modifiers.len() ==> #[trigger] modifiers[i] != '-',
        forall|i: int| 0 <= i < key.len() ==> #[trigger] key[i] != '-',
    ensures
        ({
            let names = text::trimmed_pieces(text::trimmed(modifiers), '+');
            let all_known = forall|j: int|
                0 <= j < names.len() ==> #[trigger] names[j] == "alt"@ || names[j] == "shift"@
                    || names[j] == "cmd"@ || names[j] == "ctrl"@;
            let pair = modifiers.push('-') + key;
            &&& all_known && config::is_binding(pair, binding) ==> binding is Ok
                && binding->Ok_0@.key == text::trimmed(key) && binding->Ok_0@.modifiers
                == config::mask(names) && binding->Ok_0@.command.len() == 0
            &&& config::is_binding(key, binding) ==> binding is Ok && binding->Ok_0@.key
                == text::trimmed(key) && binding->Ok_0@.modifiers == 0
        }),
{
    let pair = modifiers.push('-') + key;
    let f = |piece: Seq<char>| text::trimmed(piece);
    law_separator_parts_a_text(modifiers, key, '-');
    law_text_without_separator_is_one_piece(modifiers, '-');
    law_text_without_separator_is_one_piece(key, '-');
    assert(text::pieces(pair, '-') =~= seq![modifiers, key]);
    assert(text::trimmed_pieces(pair, '-') =~= seq![text::trimmed(modifiers), text::trimmed(key)]);
    assert(text::trimmed_pieces(key, '-') =~= seq![text::trimmed(key)]);
}

/// A key is bound to the first binding with its code and just its modifiers.
pub proof fn law_key_finds_its_binding(
    bindings: Seq<BindingModel>,
    code: u8,
    modifiers: u8,
    k: int,
)
    ensures
        0 <= k < bindings.len() && bindings[k].code == code && bindings[k].modifiers == modifiers
            && (forall|j: int|
            0 <= j < k ==> (#[trigger] bindings[j]).code != code || bindings[j].modifiers
                != modifiers) ==> config::binding_for(bindings, code, modifiers) == Some(
            bindings[k],
        ),
        (forall|j: int|
            0 <= j < bindings.len() ==> (#[trigger] bindings[j]).code != code
                || bindings[j].modifiers != modifiers) ==> config::binding_for(
            bindings,
            code,
            modifiers,
        ) is None,
{
    let f = config::is_bound(code, modifiers);
    if 0 <= k < bindings.len() && bindings[k].code == code && bindings[k].modifiers == modifiers
        && (forall|j: int|
        0 <= j < k ==> (#[trigger] bindings[j]).code != code || bindings[j].modifiers
            != modifiers) {
        search::lemma_first_index(bindings, f, k);
    }
    if forall|j: int|
        0 <= j < bindings.len() ==> (#[trigger] bindings[j]).code != code || bindings[j].modifiers
            != modifiers {
        search::lemma_no_first_index(bindings, f);
    }
}

/// The layout of the keyboard says first what the code of a key is.
pub proof fn law_layout_names_the_keys(layout: Seq<(Seq<char>, u8)>, name: Seq<char>, k: int)
    requires
        0 <= k < layout.len(),
        layout[k].0 == name,
        forall|j: int| 0 <= j < k ==> (#[trigger] layout[j]).0 != name,
    ensures
        config::key_code(layout, name) == layout[k].1,
{
    search::lemma_first_index(layout, config::named(name), k);
}

// ---------------------------------------------------------------------------
// Reloading
// ---------------------------------------------------------------------------
/// Of several sources the last one that can be used gives the configuration; one that
/// could not be read changes nothing.
pub proof fn law_last_usable_source_counts(
    sources: Seq<Result<RawConfig, String>>,
    source: Result<RawConfig, String>,
    layout: Seq<(Seq<char>, u8)>,
    candidate: Option<Config>,
)
    ensures
        source is Err ==> (config_reload::is_candidate(sources.push(source), layout, candidate)
            <==> config_reload::is_candidate(sources, layout, candidate)),
        source is Ok && (forall|j: int|
            0 <= j < source->Ok_0.bindings@.len() ==> config::is_readable(
                (#[trigger] source->Ok_0.bindings@[j]).1@,
            )) && config_reload::is_candidate(sources.push(source), layout, candidate) ==> candidate
            is Some && candidate->0.spec_options() == source->Ok_0.options,
{
    let f = config_reload::is_usable();
    let all = sources.push(source);
    let n = sources.len() as int;
    if source is Err {
        if exists|i: int| search::is_last(sources, f, i) {
            let i = choose|i: int| search::is_last(sources, f, i);
            search::lemma_last_index(sources, f, i);
            assert(all[i] == sources[i]);
            assert forall|j: int| i < j < all.len() implies !f(#[trigger] all[j]) by {
                if j < n {
                    assert(all[j] == sources[j]);
                }
            }
            search::lemma_last_index(all, f, i);
        } else if exists|i: int| search::is_last(all, f, i) {
            let i = choose|i: int| search::is_last(all, f, i);
            assert(all[i] == sources[i]);
            assert forall|j: int| i < j < sources.len() implies !f(#[trigger] sources[j]) by {
                assert(all[j] == sources[j]);
            }
            assert(search::is_last(sources, f, i));
        }
    } else if forall|j: int|
        0 <= j < source->Ok_0.bindings@.len() ==> config::is_readable(
            (#[trigger] source->Ok_0.bindings@[j]).1@,
        ) {
        search::lemma_no_first_index(source->Ok_0.bindings@, config::is_unreadable());
        search::lemma_last_index(all, f, n);
    }
}

/// A script is loaded again when its own file changes, and not for files with other
/// names elsewhere.
pub proof fn law_script_reloads_with_its_file(
    changes: Seq<FilePath>,
    change: FilePath,
    script: FilePath,
)
    ensures
        lua::some_concerns(changes.push(script), script),
        !lua::some_concerns(Seq::empty(), script),
        text::texts(change.components@) != text::texts(script.components@) && lua::optional(
            change.file_name,
        ) != lua::optional(script.file_name) ==> (lua::some_concerns(
            changes.push(change),
            script,
        ) <==> lua::some_concerns(changes, script)),
        lua::optional(change.file_name) == lua::optional(script.file_name) ==> lua::some_concerns(
            changes.push(change),
            script,
        ),
{
    let n = changes.len() as int;
    assert(changes.push(script)[n] == script);
    let more = changes.push(change);
    assert(more[n] == change);
    if lua::some_concerns(changes, script) {
        let i = choose|i: int|
            0 <= i < changes.len() && lua::matches_path(#[trigger] changes[i], script);
        assert(more[i] == changes[i]);
    }
    if lua::some_concerns(more, script) {
        let i = choose|i: int|
            0 <= i < more.len() && lua::matches_path(#[trigger] more[i], script);
        assert(i < n ==> changes[i] == more[i]);
    }
}

// ---------------------------------------------------------------------------
// Pauses
// ---------------------------------------------------------------------------
/// A switch that nobody has set is on.
pub proof fn law_switches_are_on_by_default(on: bool)
    ensures
        params::on_by_default(None),
        params::on_by_default(Some(on)) == on,
{
}

/// What is tried again within the pause is ignored, and behind it is not.
pub proof fn law_pause_ignores(system: DebouncedSystem, now: Duration, pause: Duration)
    ensures
        system.ignores(now, pause) <==> now.nanos - system.elapsed.nanos <= pause.nanos,
{
}

/// What is throttled runs once for each period: time adds up, and what is left over
/// counts toward the next.
pub proof fn law_throttled_runs_once_a_period(
    system: ThrottledSystem,
    delta: Duration,
    period: Duration,
)
    requires
        system.period.nanos > 0,
        system.elapsed.nanos < system.period.nanos,
    ensures
        ({
            let total = system.elapsed.nanos + delta.nanos;
            let after = system.ran_for(delta, period);
            &&& system.holds_back(delta, period) <==> total < system.period.nanos
            &&& after.period == system.period
            &&& total < system.period.nanos ==> after.elapsed.nanos == total
            &&& system.period.nanos <= total < 2 * system.period.nanos ==> after.elapsed.nanos
                == total - system.period.nanos
            &&& after.elapsed.nanos < system.period.nanos
        }),
{
    let (t, p) = (system.elapsed.nanos + delta.nanos, system.period.nanos as int);
    assert(0 <= t % p < p) by (nonlinear_arith)
        requires
            p > 0,
    ;
    assert(0 <= t < p ==> t % p == t) by (nonlinear_arith)
        requires
            p > 0,
    ;
    assert(p <= t < 2 * p ==> t % p == t - p) by (nonlinear_arith)
        requires
            p > 0,
    ;
}

/// Halving rounds toward zero.
pub proof fn law_halving_rounds_toward_zero(x: int)
    ensures
        x >= 0 ==> 2 * geometry::quot(x, 2) <= x < 2 * geometry::quot(x, 2) + 2,
        x <= 0 ==> 2 * geometry::quot(x, 2) - 2 < x <= 2 * geometry::quot(x, 2),
{
}

/// Sources none of which can be used, for want of reading or for a binding that cannot be
/// read, give no configuration.
pub proof fn law_unusable_sources_give_nothing(
    sources: Seq<Result<RawConfig, String>>,
    layout: Seq<(Seq<char>, u8)>,
    candidate: Option<Config>,
)
    requires
        forall|i: int|
            0 <= i < sources.len() ==> (#[trigger] sources[i]) is Err || exists|j: int|
                0 <= j < sources[i]->Ok_0.bindings@.len() && !config::is_readable(
                    (#[trigger] sources[i]->Ok_0.bindings@[j]).1@,
                ),
        config_reload::is_candidate(sources, layout, candidate),
    ensures
        candidate is None,
{
    let f = config_reload::is_usable();
    assert forall|i: int| 0 <= i < sources.len() implies !f(#[trigger] sources[i]) by {
        if sources[i] is Ok {
            let bindings = sources[i]->Ok_0.bindings@;
            let j = choose|j: int|
                0 <= j < bindings.len() && !config::is_readable((#[trigger] bindings[j]).1@);
            assert((config::is_unreadable())(bindings[j]));
            search::lemma_some_first_index(bindings, config::is_unreadable(), j);
        }
    }
    search::lemma_no_last_index(sources, f);
}

/// A configuration that can be adapted to is the one in use; else the old one stays, and
/// the reason is told.
pub proof fn law_configuration_is_used_or_refused(
    before: Config,
    candidate: Config,
    done: Result<(), Error>,
    after: Config,
    refresh: Refresh,
)
    requires
        config_reload::is_taken_over(before, candidate, done, after, refresh),
    ensures
        after == candidate || after == before,
        done is Ok ==> after == candidate && refresh is Updated,
        done is Err ==> after == before && refresh == Refresh::Kept(done->Err_0),
{
}

} // verus!
