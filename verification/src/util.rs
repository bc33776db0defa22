//! Resolution of link targets against the current location.

use vstd::prelude::*;
use crate::text::{chars_of, string_from_chars, find_sub, find_sub_exec, contains_sub,
    lemma_find_sub_props, push_range};

verus! {

/// The scheme separator "://".
pub open spec fn scheme_sep() -> Seq<char> {
    seq![':', '/', '/']
}

/// The resolution rule: an empty target keeps the base; a target carrying a
/// scheme separator stands verbatim; a target beginning with '/' replaces
/// everything after the base's scheme and host; any other target is appended
/// to the base with a '/' between them.
pub open spec fn resolve_spec(base: Seq<char>, target: Seq<char>) -> Seq<char> {
    if target.len() == 0 {
        base
    } else if contains_sub(target, scheme_sep()) {
        target
    } else if target[0] != '/' {
        base + seq!['/'] + target
    } else {
        match find_sub(base, scheme_sep(), 0) {
            Some(i) => match find_sub(base, seq!['/'], i + 3) {
                Some(root) => base.subrange(0, root) + target,
                None => base + target,
            },
            None => base,
        }
    }
}

/// Resolves `target` against `current_location`. A host-relative target (one
/// that begins with '/' and carries no scheme) requires a base with a scheme.
pub fn absolutize_url(current_location: &String, target: &String) -> (r: String)
    requires
        (target@.len() > 0 && target@[0] == '/' && !contains_sub(target@, scheme_sep()))
            ==> contains_sub(current_location@, scheme_sep()),
    ensures
        r@ == resolve_spec(current_location@, target@),
{
    let t = chars_of(target.as_str());
    if t.len() == 0 {
        return current_location.clone();
    }
    let sep: Vec<char> = vec![':', '/', '/'];
    proof {
        assert(sep@ =~= scheme_sep());
    }
    if find_sub_exec(t.as_slice(), sep.as_slice(), 0).is_some() {
        return target.clone();
    }
    let b = chars_of(current_location.as_str());
    let mut out: Vec<char> = Vec::new();
    if t[0] != '/' {
        push_range(&mut out, b.as_slice(), 0, b.len());
        out.push('/');
        push_range(&mut out, t.as_slice(), 0, t.len());
        proof {
            assert(b@.subrange(0, b@.len() as int) =~= b@);
            assert(t@.subrange(0, t@.len() as int) =~= t@);
            assert(out@ =~= b@ + seq!['/'] + t@);
        }
    } else {
        let i = match find_sub_exec(b.as_slice(), sep.as_slice(), 0) {
            Some(i) => i,
            None => {
                proof {
                    assert(false);
                }
                unreached()
            },
        };
        let bn = b.len();
        proof {
            lemma_find_sub_props(b@, scheme_sep(), 0);
            assert(i + 3 <= bn);
        }
        let slash: Vec<char> = vec!['/'];
        proof {
            assert(slash@ =~= seq!['/']);
        }
        match find_sub_exec(b.as_slice(), slash.as_slice(), i + 3) {
            Some(root) => {
                proof {
                    lemma_find_sub_props(b@, seq!['/'], i + 3);
                }
                push_range(&mut out, b.as_slice(), 0, root);
                push_range(&mut out, t.as_slice(), 0, t.len());
                proof {
                    assert(t@.subrange(0, t@.len() as int) =~= t@);
                }
            },
            None => {
                push_range(&mut out, b.as_slice(), 0, b.len());
                push_range(&mut out, t.as_slice(), 0, t.len());
                proof {
                    assert(b@.subrange(0, b@.len() as int) =~= b@);
                    assert(t@.subrange(0, t@.len() as int) =~= t@);
                }
            },
        }
    }
    string_from_chars(out.as_slice())
}

} // verus!
