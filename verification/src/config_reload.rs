//! Taking over a configuration that was changed on disk.
use vstd::prelude::*;

use crate::config;
use crate::config::{Config, RawConfig};
use crate::errors::Error;
use crate::search;

verus! {

/// Puts a configuration in place of another, if `reconfigure` can adapt to it;
/// else the one in use is kept.
pub fn replace_config_transactionally<F: FnOnce(&Config) -> Result<(), Error>>(
    current: &mut Config,
    candidate: Config,
    reconfigure: F,
) -> (done: Result<(), Error>)
    requires
        call_requires(reconfigure, (&candidate,)),
    ensures
        call_ensures(reconfigure, (&candidate,), done),
        done is Ok ==> *final(current) == candidate,
        done is Err ==> *final(current) == *old(current),
{
    match reconfigure(&candidate) {
        Ok(done) => {
            *current = candidate;
            Ok(done)
        },
        Err(error) => Err(error),
    }
}

/// What happened to the files of the configuration.
#[derive(Clone, Copy, Debug, PartialEq, Eq, Structural)]
pub enum FileChange {
    /// They were written.
    Written,
    /// They were removed.
    Removed,
    Other,
}

/// What comes of a change to the files.
#[derive(Debug)]
pub enum Refresh {
    /// It does not matter.
    Ignored,
    /// The files are not watched any more.
    Unwatch,
    /// The new configuration cannot be adapted to, so the one in use is kept.
    Kept(Error),
    /// What depends on the configuration is brought up to date, though it need
    /// not have changed.
    Updated,
}

/// Sources that a configuration can be made of.
pub open spec fn is_usable() -> spec_fn(Result<RawConfig, String>) -> bool {
    |source: Result<RawConfig, String>|
        source is Ok && search::first_where(
            source->Ok_0.bindings@,
            config::is_unreadable(),
        ) is None
}

/// The configuration is the one that the sources give: that of the last one that
/// can be used.
pub open spec fn is_candidate(
    sources: Seq<Result<RawConfig, String>>,
    layout: Seq<(Seq<char>, u8)>,
    candidate: Option<Config>,
) -> bool {
    match search::last_index(sources, is_usable()) {
        Some(k) => candidate is Some && Config::is_made(sources[k], layout, Ok(candidate->0)),
        None => candidate is None,
    }
}

/// A configuration is taken over where it can be adapted to; else the one in use is kept.
pub open spec fn is_taken_over(
    before: Config,
    candidate: Config,
    done: Result<(), Error>,
    after: Config,
    refresh: Refresh,
) -> bool {
    match done {
        Ok(_) => refresh is Updated && after == candidate,
        Err(error) => refresh is Kept && refresh->Kept_0 == error && after == before,
    }
}

/// The configuration that the sources give.
fn find_candidate(sources: Vec<Result<RawConfig, String>>, layout: &Vec<(String, u8)>) -> (candidate:
    Option<Config>)
    ensures
        is_candidate(sources@, config::keys_view(layout@), candidate),
{
    let ghost all = sources@;
    let ghost p = is_usable();
    let mut left = sources;
    proof {
        assert(all.take(all.len() as int) =~= all);
    }
    loop
        invariant
            p == is_usable(),
            all == sources@,
            left@ == all.take(left.len() as int),
            left.len() <= all.len(),
            forall|j: int| left.len() <= j < all.len() ==> !p(#[trigger] all[j]),
        decreases left.len(),
    {
        let ghost n = left.len() - 1;
        match left.pop() {
            None => {
                proof {
                    search::lemma_no_last_index(all, p);
                }
                return None;
            },
            Some(source) => {
                assert(source == all[n]);
                match Config::new(source, layout) {
                    Ok(config) => {
                        proof {
                            search::lemma_last_index(all, p, n);
                        }
                        return Some(config);
                    },
                    Err(_) => {},
                }
                assert(left@ =~= all.take(n));
            },
        }
    }
}

/// Takes over the configuration that was written to the watched files, the last
/// readable one of them. `reconfigure` adapts to it and says whether that works;
/// it is not called where none can be read.
pub fn refresh_configuration_trigger<F: FnOnce(&Config) -> Result<(), Error>>(
    change: FileChange,
    watched: bool,
    sources: Vec<Result<RawConfig, String>>,
    layout: &Vec<(String, u8)>,
    current: &mut Config,
    reconfigure: F,
) -> (refresh: Refresh)
    requires
        forall|candidate: Config| #[trigger] call_requires(reconfigure, (&candidate,)),
    ensures
        !watched || change == FileChange::Other ==> refresh is Ignored && *final(current)
            == *old(current),
        watched && change == FileChange::Removed ==> refresh is Unwatch && *final(current)
            == *old(current),
        watched && change == FileChange::Written ==> exists|candidate: Option<Config>|
            {
                &&& #[trigger] is_candidate(sources@, config::keys_view(layout@), candidate)
                &&& match candidate {
                    None => refresh is Updated && *final(current) == *old(current),
                    Some(candidate) => exists|done: Result<(), Error>| #[trigger]
                        call_ensures(reconfigure, (&candidate,), done) && is_taken_over(
                            *old(current),
                            candidate,
                            done,
                            *final(current),
                            refresh,
                        ),
                }
            },
{
    if !watched {
        return Refresh::Ignored;
    }
    match change {
        FileChange::Written => {},
        FileChange::Removed => return Refresh::Unwatch,
        FileChange::Other => return Refresh::Ignored,
    }
    let found = find_candidate(sources, layout);
    let ghost seen = found;
    assert(is_candidate(sources@, config::keys_view(layout@), seen));
    match found {
        None => Refresh::Updated,
        Some(candidate) => {
            let ghost taken = candidate;
            let done = replace_config_transactionally(current, candidate, reconfigure);
            assert(call_ensures(reconfigure, (&taken,), done));
            match done {
                Ok(_) => Refresh::Updated,
                Err(error) => Refresh::Kept(error),
            }
        },
    }
}

} // verus!
