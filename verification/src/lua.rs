//! The script that a user writes: which changes concern it, and what comes of
//! loading it.
use vstd::prelude::*;
use vstd::string::*;

use crate::clock::Duration;
use crate::text;
use crate::text::same;

verus! {

/// A path: its components, and the name of the file where the last of them is one.
#[derive(Debug)]
pub struct FilePath {
    pub components: Vec<String>,
    pub file_name: Option<String>,
}

/// The path of the script.
#[derive(Debug)]
pub struct LuaScriptPath(pub FilePath);

/// The text, if there is one.
pub open spec fn optional(text: Option<String>) -> Option<Seq<char>> {
    match text {
        Some(text) => Some(text@),
        None => None,
    }
}

/// A change at `changed` concerns the script: it is the same path, or has the same
/// file name.
pub open spec fn matches_path(changed: FilePath, script: FilePath) -> bool {
    ||| text::texts(changed.components@) == text::texts(script.components@)
    ||| optional(changed.file_name) == optional(script.file_name)
}

/// Both are the same list of texts.
fn same_texts(a: &Vec<String>, b: &Vec<String>) -> (equal: bool)
    ensures
        equal == (text::texts(a@) == text::texts(b@)),
{
    if a.len() != b.len() {
        assert(text::texts(a@).len() != text::texts(b@).len());
        return false;
    }
    let ghost left = text::texts(a@);
    let ghost right = text::texts(b@);
    let mut i: usize = 0;
    while i < a.len()
        invariant
            i <= a.len(),
            a.len() == b.len(),
            left == text::texts(a@),
            right == text::texts(b@),
            forall|j: int| 0 <= j < i ==> #[trigger] left[j] == right[j],
        decreases a.len() - i,
    {
        assert(left[i as int] == a@[i as int]@);
        assert(right[i as int] == b@[i as int]@);
        if !same(a[i].as_str(), b[i].as_str()) {
            return false;
        }
        i = i + 1;
    }
    assert(left =~= right);
    true
}

/// Whether a change notification is about the script: it names the script's path,
/// or a file of the same name, as an editor's that saves to another file and then
/// renames it.
pub fn paths_match(changed: &FilePath, script: &FilePath) -> (matching: bool)
    ensures
        matching == matches_path(*changed, *script),
{
    if same_texts(&changed.components, &script.components) {
        return true;
    }
    match (&changed.file_name, &script.file_name) {
        (Some(a), Some(b)) => same(a.as_str(), b.as_str()),
        (None, None) => true,
        _ => false,
    }
}

/// Some change concerns the script.
pub open spec fn some_concerns(changes: Seq<FilePath>, script: FilePath) -> bool {
    exists|i: int| 0 <= i < changes.len() && matches_path(#[trigger] changes[i], script)
}

/// Whether the script is to be loaded again after some changes: one of them is
/// about it.
pub fn should_reload(changes: &Vec<FilePath>, script: &LuaScriptPath) -> (reload: bool)
    ensures
        reload <==> some_concerns(changes@, script.0),
{
    let mut i: usize = 0;
    while i < changes.len()
        invariant
            i <= changes.len(),
            forall|j: int| 0 <= j < i ==> !matches_path(#[trigger] changes@[j], script.0),
        decreases changes.len() - i,
    {
        if paths_match(&changes[i], &script.0) {
            return true;
        }
        i = i + 1;
    }
    false
}

/// A message that is shown for a while.
#[derive(Debug)]
pub struct FlashMessage {
    pub text: String,
    pub shown_for: Duration,
}

/// Puts a newly loaded script in the place of the running one, and gives the key
/// bindings of it that are to be published, as `published` reads them. One that
/// does not load leaves the running one as it is, with nothing to publish, and its
/// error is shown instead.
pub fn replace_runtime<R, B, P: FnOnce(&R) -> B>(
    runtime: &mut R,
    loaded: Result<R, String>,
    published: P,
) -> (replaced: (FlashMessage, Option<B>))
    requires
        loaded matches Ok(loaded) ==> call_requires(published, (&loaded,)),
    ensures
        match loaded {
            Ok(loaded) => {
                &&& *final(runtime) == loaded
                &&& replaced.0.text@ == "Lua reloaded"@
                &&& replaced.0.shown_for == (Duration { nanos: 1_500_000_000 })
                &&& replaced.1 matches Some(bindings)
                &&& call_ensures(published, (&*final(runtime),), bindings)
            },
            Err(error) => {
                &&& *final(runtime) == *old(runtime)
                &&& replaced.0.text@ == "Lua error: "@ + error@
                &&& replaced.0.shown_for == (Duration { nanos: 4_000_000_000 })
                &&& replaced.1 is None
            },
        },
{
    match loaded {
        Ok(loaded) => {
            let bindings = published(&loaded);
            *runtime = loaded;
            let flash = FlashMessage {
                text: "Lua reloaded".to_owned(),
                shown_for: Duration { nanos: 1_500_000_000 },
            };
            (flash, Some(bindings))
        },
        Err(error) => {
            let mut text = "Lua error: ".to_owned();
            text.append(error.as_str());
            (FlashMessage { text, shown_for: Duration { nanos: 4_000_000_000 } }, None)
        },
    }
}

/// The runtime to start with: the one that was loaded, or an empty one where the
/// script does not load. The key bindings of whichever it is are to be published,
/// as `published` reads them.
pub fn load_runtime<R, E, B, F: FnOnce() -> R, P: FnOnce(&R) -> B>(
    loaded: Result<R, E>,
    empty: F,
    published: P,
) -> (started: (R, B))
    requires
        loaded is Err ==> call_requires(empty, ()),
        loaded matches Ok(loaded) ==> call_requires(published, (&loaded,)),
        loaded is Err ==> forall|runtime: R|
            call_ensures(empty, (), runtime) ==> #[trigger] call_requires(published, (&runtime,)),
    ensures
        match loaded {
            Ok(loaded) => started.0 == loaded,
            Err(_) => call_ensures(empty, (), started.0),
        },
        call_ensures(published, (&started.0,), started.1),
{
    let runtime = match loaded {
        Ok(loaded) => loaded,
        Err(_) => empty(),
    };
    let bindings = published(&runtime);
    (runtime, bindings)
}

} // verus!
