//! Environment of the renderer on hosts that use WebKitGTK.
use vstd::prelude::*;

use crate::strings::{
    chars_of, lemma_split_concat, lemma_split_whole, list_has, lists_text, lowered, same_ignoring_case, split_on, split_text, text_list,
    trim_text, trimmed,
};

verus! {

/// What is known of the host.
#[derive(Clone, Debug)]
pub struct HostFacts {
    pub nvidia: bool,
    pub x11_backend: bool,
    /// Variables that the user has set already.
    pub already_set: Vec<String>,
}

/// Whether the renderer draws through X11: the first backend that the user
/// lists, or the lack of a Wayland display.
pub open spec fn draws_through_x11(backends: Seq<char>, wayland: bool) -> bool {
    if backends.len() == 0 {
        !wayland
    } else {
        lowered(trimmed(split_on(backends, ',')[0])) == lowered("x11"@)
    }
}

pub fn detect_x11(backends: &str, wayland: bool) -> (x11: bool)
    ensures
        x11 == draws_through_x11(backends@, wayland),
{
    if chars_of(backends).len() == 0 {
        return !wayland;
    }
    let list = split_text(backends, ',');
    proof {
        crate::strings::lemma_split_nonempty(backends@, ',');
        assert(text_list(list@)[0] == list@[0]@);
    }
    same_ignoring_case(trim_text(list[0].as_str()).as_str(), "x11")
}

/// Which variables have to be set to `1`: shared buffers always, and what keeps
/// one vendor's driver from failing where that driver is used. What the user has
/// set stays as it is.
pub open spec fn needs_override(facts: &HostFacts, key: Seq<char>) -> bool {
    &&& !lists_text(text_list(facts.already_set@), key)
    &&& {
        ||| key == "JSC_useSharedArrayBuffer"@
        ||| key == "__NV_DISABLE_EXPLICIT_SYNC"@ && facts.nvidia
        ||| key == "WEBKIT_DISABLE_DMABUF_RENDERER"@ && facts.nvidia && facts.x11_backend
    }
}

/// A list of one key, or of none.
pub open spec fn if_needed(facts: &HostFacts, key: Seq<char>) -> Seq<Seq<char>> {
    if needs_override(facts, key) { seq![key] } else { Seq::empty() }
}

/// The variables to set, in order of name.
pub open spec fn overrides(facts: &HostFacts) -> Seq<Seq<char>> {
    if_needed(facts, "JSC_useSharedArrayBuffer"@) + if_needed(
        facts,
        "WEBKIT_DISABLE_DMABUF_RENDERER"@,
    ) + if_needed(facts, "__NV_DISABLE_EXPLICIT_SYNC"@)
}

/// The variables to set to `1`, in order of name.
pub fn environment_overrides(facts: &HostFacts) -> (keys: Vec<&'static str>)
    ensures
        keys@.map_values(|key: &'static str| key@) == overrides(facts),
        forall|i: int| 0 <= i < keys@.len() ==> needs_override(facts, (#[trigger] keys@[i])@),
        forall|key: Seq<char>| #[trigger]
            needs_override(facts, key) ==> exists|i: int|
                0 <= i < keys@.len() && (#[trigger] keys@[i])@ == key,
        forall|i: int, j: int| 0 <= i < j < keys@.len() ==> keys@[i]@ != keys@[j]@,
{
    proof {
        reveal_strlit("JSC_useSharedArrayBuffer");
        reveal_strlit("WEBKIT_DISABLE_DMABUF_RENDERER");
        reveal_strlit("__NV_DISABLE_EXPLICIT_SYNC");
        assert("JSC_useSharedArrayBuffer"@[0] != "WEBKIT_DISABLE_DMABUF_RENDERER"@[0]);
        assert("JSC_useSharedArrayBuffer"@[0] != "__NV_DISABLE_EXPLICIT_SYNC"@[0]);
        assert("WEBKIT_DISABLE_DMABUF_RENDERER"@[0] != "__NV_DISABLE_EXPLICIT_SYNC"@[0]);
    }
    let mut keys: Vec<&'static str> = Vec::new();
    let shared = !list_has(&facts.already_set, "JSC_useSharedArrayBuffer");
    let renderer = facts.nvidia && facts.x11_backend && !list_has(
        &facts.already_set,
        "WEBKIT_DISABLE_DMABUF_RENDERER",
    );
    let sync = facts.nvidia && !list_has(&facts.already_set, "__NV_DISABLE_EXPLICIT_SYNC");
    if shared {
        keys.push("JSC_useSharedArrayBuffer");
    }
    let first = keys.len();
    if renderer {
        keys.push("WEBKIT_DISABLE_DMABUF_RENDERER");
    }
    let second = keys.len();
    if sync {
        keys.push("__NV_DISABLE_EXPLICIT_SYNC");
    }
    proof {
        assert(keys@.map_values(|key: &'static str| key@) =~= overrides(facts));
        assert forall|key: Seq<char>| #[trigger] needs_override(facts, key) implies exists|i: int|
            0 <= i < keys@.len() && (#[trigger] keys@[i])@ == key by {
            if key == "JSC_useSharedArrayBuffer"@ {
                assert(keys@[0]@ == key);
            } else if key == "WEBKIT_DISABLE_DMABUF_RENDERER"@ {
                assert(keys@[first as int]@ == key);
            } else {
                assert(keys@[second as int]@ == key);
            }
        }
    }
    keys
}

/// What the user has set is never overridden.
pub proof fn user_values_stay(facts: &HostFacts, key: Seq<char>)
    requires
        lists_text(text_list(facts.already_set@), key),
    ensures
        !needs_override(facts, key),
{
}

/// The first backend that is named decides, in whatever case and with whatever space around it;
/// where none is named, the session does.
pub proof fn the_first_backend_decides(first: Seq<char>, rest: Seq<char>, wayland: bool)
    requires
        !first.contains(','),
    ensures
        draws_through_x11(Seq::empty(), wayland) == !wayland,
        draws_through_x11(first + seq![','] + rest, wayland) == (lowered(trimmed(first))
            == "x11"@),
        first.len() > 0 ==> draws_through_x11(first, wayland) == (lowered(trimmed(first))
            == "x11"@),
{
    reveal_strlit("x11");
    assert(lowered("x11"@) =~= "x11"@);
    lemma_split_whole(first, ',');
    lemma_split_concat(first, ',', rest);
}

/// Nothing is set but three variables, none of them twice and none that is set already: one
/// always, one with the driver it is for, one where that driver draws through X11.
pub proof fn three_variables_are_set_at_most(facts: &HostFacts, key: Seq<char>)
    ensures
        overrides(facts).contains(key) <==> {
            &&& !lists_text(text_list(facts.already_set@), key)
            &&& {
                ||| key == "JSC_useSharedArrayBuffer"@
                ||| key == "WEBKIT_DISABLE_DMABUF_RENDERER"@ && facts.nvidia && facts.x11_backend
                ||| key == "__NV_DISABLE_EXPLICIT_SYNC"@ && facts.nvidia
            }
        },
        overrides(facts).len() <= 3,
        !facts.nvidia ==> overrides(facts).len() <= 1,
{
    reveal_strlit("JSC_useSharedArrayBuffer");
    reveal_strlit("WEBKIT_DISABLE_DMABUF_RENDERER");
    reveal_strlit("__NV_DISABLE_EXPLICIT_SYNC");
    assert("JSC_useSharedArrayBuffer"@[0] == 'J');
    assert("WEBKIT_DISABLE_DMABUF_RENDERER"@[0] == 'W');
    assert("__NV_DISABLE_EXPLICIT_SYNC"@[0] == '_');
    let a = if_needed(facts, "JSC_useSharedArrayBuffer"@);
    let b = if_needed(facts, "WEBKIT_DISABLE_DMABUF_RENDERER"@);
    let c = if_needed(facts, "__NV_DISABLE_EXPLICIT_SYNC"@);
    let all = a + b + c;
    if needs_override(facts, key) {
        if key == "JSC_useSharedArrayBuffer"@ {
            assert(all[0] == key);
        } else if key == "WEBKIT_DISABLE_DMABUF_RENDERER"@ {
            assert(all[a.len() as int] == key);
        } else {
            assert(all[(a.len() + b.len()) as int] == key);
        }
    }
    if all.contains(key) {
        let i = choose|i: int| 0 <= i < all.len() && all[i] == key;
        if i < a.len() {
            assert(all[i] == a[i]);
        } else if i < a.len() + b.len() {
            assert(all[i] == b[i - a.len()]);
        } else {
            assert(all[i] == c[i - a.len() - b.len()]);
        }
    }
}

} // verus!
