//! The scripting bridge's decision logic: translation between engine values
//! and native values, the callback registry with its liveness rule, widget
//! handles with their registrations, and the decisions behind the host
//! functions (form submission, fetch). The engine itself and the widget
//! toolkit perform the effects; everything they need decided is decided here.

use vstd::prelude::*;
use crate::error::Error;
use crate::text::{chars_of, find_sub_exec, contains_sub};
use crate::util::scheme_sep;

verus! {

/// A value of the scripting engine, as far as the bridge translates it.
#[derive(Copy, Clone, Debug, PartialEq, Eq, Structural)]
pub enum ScriptValue {
    Nil,
    Bool(bool),
    /// A handle to a live widget.
    WidgetRef(u64),
    /// Any value outside the translation set (a string, a number, a table…).
    Other,
}

/// A native (toolkit) value, as far as the bridge translates it.
#[derive(Copy, Clone, Debug, PartialEq, Eq, Structural)]
pub enum NativeValue {
    Invalid,
    Unit,
    Bool(bool),
    Widget(u64),
    /// Any type outside the translation table.
    Other,
}

/// The toolkit-to-engine value table: invalid and unit values become nil,
/// booleans and widget references carry over, anything else has no
/// translation (logged, not an error).
pub open spec fn spec_native_to_script(v: NativeValue) -> Option<ScriptValue> {
    match v {
        NativeValue::Invalid => Some(ScriptValue::Nil),
        NativeValue::Unit => Some(ScriptValue::Nil),
        NativeValue::Bool(b) => Some(ScriptValue::Bool(b)),
        NativeValue::Widget(w) => Some(ScriptValue::WidgetRef(w)),
        NativeValue::Other => None,
    }
}

/// The engine-to-toolkit value table: only booleans translate; nil and
/// everything else produce no value (logged, not an error).
pub open spec fn spec_script_to_native(v: ScriptValue) -> Option<NativeValue> {
    match v {
        ScriptValue::Nil => None,
        ScriptValue::Bool(b) => Some(NativeValue::Bool(b)),
        ScriptValue::WidgetRef(_) => None,
        ScriptValue::Other => None,
    }
}

pub fn native_to_script(v: &NativeValue) -> (r: Option<ScriptValue>)
    ensures
        r == spec_native_to_script(*v),
{
    match v {
        NativeValue::Invalid => Some(ScriptValue::Nil),
        NativeValue::Unit => Some(ScriptValue::Nil),
        NativeValue::Bool(b) => Some(ScriptValue::Bool(*b)),
        NativeValue::Widget(w) => Some(ScriptValue::WidgetRef(*w)),
        NativeValue::Other => None,
    }
}

pub fn script_to_native(v: &ScriptValue) -> (r: Option<NativeValue>)
    ensures
        r == spec_script_to_native(*v),
{
    match v {
        ScriptValue::Nil => None,
        ScriptValue::Bool(b) => Some(NativeValue::Bool(*b)),
        ScriptValue::WidgetRef(_) => None,
        ScriptValue::Other => None,
    }
}

/// What a callback's returned values translate to: no value for none, the
/// translation of a single value, and a typed error for more than one.
pub fn callback_return(vals: &Vec<ScriptValue>) -> (r: Result<Option<NativeValue>, Error>)
    ensures
        vals@.len() == 0 ==> r == Ok::<Option<NativeValue>, Error>(None),
        vals@.len() == 1 ==> r == Ok::<Option<NativeValue>, Error>(
            spec_script_to_native(vals@[0]),
        ),
        vals@.len() > 1 ==> (r matches Err(Error::TooManyReturnValues)),
{
    if vals.len() == 0 {
        Ok(None)
    } else if vals.len() == 1 {
        Ok(script_to_native(&vals[0]))
    } else {
        Err(Error::TooManyReturnValues)
    }
}

// ---------------------------------------------------------------------------
// The callback registry
// ---------------------------------------------------------------------------
/// The engine's registry of long-lived callbacks, modeled by their keys. The
/// native signal closure holds only a key; the registry decides whether a
/// firing still resolves to a callback.
pub struct CallbackRegistry {
    next: u64,
    live: Vec<u64>,
}

/// What a purge leaves: exactly the keys that were present and still have an
/// external reference.
pub open spec fn purge_keeps(before: Seq<u64>, live: Seq<u64>, after: Seq<u64>) -> bool {
    forall|k: u64| #[trigger] after.contains(k) <==> (before.contains(k) && live.contains(k))
}

/// What a firing resolves to: the callback under the key, or nothing.
#[derive(Copy, Clone, Debug, PartialEq, Eq, Structural)]
pub enum FireOutcome {
    /// The key is gone; the firing is a safe no-op.
    NoOp,
    /// The callback under this key runs.
    Invoke(u64),
}

pub open spec fn fire_outcome(keys: Seq<u64>, key: u64) -> FireOutcome {
    if keys.contains(key) {
        FireOutcome::Invoke(key)
    } else {
        FireOutcome::NoOp
    }
}

impl CallbackRegistry {
    /// The keys currently registered.
    pub closed spec fn keys(&self) -> Seq<u64> {
        self.live@
    }

    /// The next key to hand out; every registered key is below it.
    pub closed spec fn next_key(&self) -> u64 {
        self.next
    }

    pub open spec fn wf(&self) -> bool {
        forall|j: int| 0 <= j < self.keys().len() ==> #[trigger] self.keys()[j] < self.next_key()
    }

    pub fn new() -> (r: CallbackRegistry)
        ensures
            r.wf(),
            r.keys() == Seq::<u64>::empty(),
            r.next_key() == 0,
    {
        CallbackRegistry { next: 0, live: Vec::new() }
    }

    /// Stores a callback and returns its fresh key; `None` only when the key
    /// space is exhausted.
    pub fn register(&mut self) -> (r: Option<u64>)
        requires
            old(self).wf(),
        ensures
            final(self).wf(),
            old(self).next_key() < u64::MAX ==> ({
                &&& r == Some(old(self).next_key())
                &&& !old(self).keys().contains(old(self).next_key())
                &&& final(self).keys() == old(self).keys().push(old(self).next_key())
                &&& final(self).next_key() == old(self).next_key() + 1
            }),
            old(self).next_key() == u64::MAX ==> r is None && *final(self) == *old(self),
    {
        if self.next == u64::MAX {
            return None;
        }
        let k = self.next;
        proof {
            if self.keys().contains(k) {
                let j = choose|j: int| 0 <= j < self.keys().len() && self.keys()[j] == k;
                assert(self.keys()[j] < self.next_key());
            }
        }
        self.live.push(k);
        self.next = k + 1;
        Some(k)
    }

    /// Whether a key still resolves to a callback.
    pub fn contains(&self, key: u64) -> (r: bool)
        ensures
            r == self.keys().contains(key),
    {
        let n = self.live.len();
        let mut i: usize = 0;
        while i < n
            invariant
                0 <= i <= n,
                n == self.live@.len(),
                forall|j: int| 0 <= j < i ==> self.live@[j] != key,
            decreases n - i,
        {
            if self.live[i] == key {
                return true;
            }
            i += 1;
        }
        proof {
            if self.keys().contains(key) {
                let j = choose|j: int| 0 <= j < self.keys().len() && self.keys()[j] == key;
                assert(self.live@[j] != key);
            }
        }
        false
    }

    /// Purges the registry: only the keys in `still_referenced` survive. Runs
    /// once per render pass, after script execution.
    pub fn expire(&mut self, still_referenced: &Vec<u64>)
        requires
            old(self).wf(),
        ensures
            final(self).wf(),
            final(self).next_key() == old(self).next_key(),
            purge_keeps(old(self).keys(), still_referenced@, final(self).keys()),
    {
        let n = self.live.len();
        let mut kept: Vec<u64> = Vec::new();
        let mut i: usize = 0;
        while i < n
            invariant
                0 <= i <= n,
                n == self.live@.len(),
                *self == *old(self),
                old(self).wf(),
                forall|j: int| 0 <= j < kept@.len() ==> #[trigger] kept@[j] < self.next,
                forall|k: u64|
                    #[trigger] kept@.contains(k) <==> (self.live@.take(i as int).contains(k)
                        && still_referenced@.contains(k)),
            decreases n - i,
        {
            let key = self.live[i];
            proof {
                assert(self.keys()[i as int] < self.next_key());
            }
            let ghost pre = kept@;
            let in_live = contains_u64(still_referenced, key);
            if in_live {
                kept.push(key);
            }
            proof {
                assert(self.live@.take(i + 1).drop_last() =~= self.live@.take(i as int));
                assert(self.live@.take(i + 1).last() == self.live@[i as int]);
                assert forall|k: u64|
                    #[trigger] kept@.contains(k) <==> (self.live@.take(i + 1).contains(k)
                        && still_referenced@.contains(k)) by {
                    lemma_push_contains(self.live@.take(i as int), key, k);
                    if in_live {
                        lemma_push_contains(pre, key, k);
                        assert(kept@ == pre.push(key));
                        assert(pre.contains(k) <==> (self.live@.take(i as int).contains(k)
                            && still_referenced@.contains(k)));
                    } else {
                        assert(kept@ == pre);
                    }
                }
            }
            i += 1;
        }
        proof {
            assert(self.live@.take(n as int) =~= self.live@);
        }
        self.live = kept;
    }

    /// Resolves a firing: the callback under the key, or a safe no-op when
    /// the key has been purged.
    pub fn fire(&self, key: u64) -> (r: FireOutcome)
        ensures
            r == fire_outcome(self.keys(), key),
    {
        if self.contains(key) {
            FireOutcome::Invoke(key)
        } else {
            FireOutcome::NoOp
        }
    }
}

proof fn lemma_push_contains(s: Seq<u64>, x: u64, k: u64)
    ensures
        s.push(x).contains(k) <==> (s.contains(k) || k == x),
{
    if s.contains(k) {
        let j = choose|j: int| 0 <= j < s.len() && s[j] == k;
        assert(s.push(x)[j] == k);
    }
    assert(s.push(x)[s.len() as int] == x);
    if s.push(x).contains(k) {
        let j = choose|j: int| 0 <= j < s.push(x).len() && s.push(x)[j] == k;
        if j < s.len() {
            assert(s[j] == k);
        }
    }
}

fn contains_u64(v: &Vec<u64>, x: u64) -> (r: bool)
    ensures
        r == v@.contains(x),
{
    let n = v.len();
    let mut i: usize = 0;
    while i < n
        invariant
            0 <= i <= n,
            n == v@.len(),
            forall|j: int| 0 <= j < i ==> v@[j] != x,
        decreases n - i,
    {
        if v[i] == x {
            return true;
        }
        i += 1;
    }
    proof {
        if v@.contains(x) {
            let j = choose|j: int| 0 <= j < v@.len() && v@[j] == x;
            assert(v@[j] != x);
        }
    }
    false
}

/// Law: a callback purged from the registry fires as a safe no-op — after a
/// purge whose live set does not hold the key, firing that key resolves to
/// nothing.
pub proof fn lemma_purged_fire_noop(before: Seq<u64>, live: Seq<u64>, after: Seq<u64>, key: u64)
    requires
        purge_keeps(before, live, after),
        !live.contains(key),
    ensures
        fire_outcome(after, key) == FireOutcome::NoOp,
{
    assert(!(before.contains(key) && live.contains(key)));
    assert(!after.contains(key));
}

// ---------------------------------------------------------------------------
// Widget handles
// ---------------------------------------------------------------------------
/// What a widget can do, as far as the bridge's typed operations care.
#[derive(Copy, Clone, Debug, PartialEq, Eq, Structural)]
pub enum WidgetKind {
    /// A text-entry-like widget: `get_text` works.
    TextEntry,
    /// A button-like widget: `set_label` works.
    ButtonLike,
    Other,
}

/// One native signal subscription made on behalf of a script callback. The
/// native closure holds only the callback key; the registry's liveness check
/// decides whether a firing still runs anything.
#[derive(Copy, Clone, Debug, PartialEq, Eq, Structural)]
pub struct CallbackRegistration {
    /// The widget the subscription was made on.
    pub widget: u64,
    /// The native subscription id.
    pub subscription: u64,
    /// The registry key owning the script callback.
    pub callback_key: u64,
}

/// A widget reference shared with the scripting engine, together with the
/// callback registrations made through it.
pub struct WidgetHandle {
    pub widget: u64,
    pub kind: WidgetKind,
    pub registrations: Vec<CallbackRegistration>,
}

impl WidgetHandle {
    pub fn new(widget: u64, kind: WidgetKind) -> (r: WidgetHandle)
        ensures
            r.widget == widget,
            r.kind == kind,
            r.registrations@ == Seq::<CallbackRegistration>::empty(),
    {
        WidgetHandle { widget, kind, registrations: Vec::new() }
    }

    /// Registers a callback for a native subscription: the callback goes into
    /// the registry under a fresh key, and the registration is recorded on
    /// the handle. `None` only when the registry's key space is exhausted.
    pub fn connect(&mut self, registry: &mut CallbackRegistry, subscription: u64) -> (r: Option<
        u64,
    >)
        requires
            old(registry).wf(),
        ensures
            final(registry).wf(),
            old(registry).next_key() < u64::MAX ==> ({
                let k = old(registry).next_key();
                &&& r == Some(k)
                &&& !old(registry).keys().contains(k)
                &&& final(registry).keys() == old(registry).keys().push(k)
                &&& final(self).registrations@ == old(self).registrations@.push(
                    CallbackRegistration {
                        widget: old(self).widget,
                        subscription,
                        callback_key: k,
                    },
                )
                &&& final(self).widget == old(self).widget
                &&& final(self).kind == old(self).kind
            }),
            old(registry).next_key() == u64::MAX ==> r is None && *final(self) == *old(self)
                && *final(registry) == *old(registry),
    {
        match registry.register() {
            Some(k) => {
                let reg = CallbackRegistration {
                    widget: self.widget,
                    subscription,
                    callback_key: k,
                };
                self.registrations.push(reg);
                Some(k)
            },
            None => None,
        }
    }

    /// `get_text` works only on text-entry-like widgets.
    pub fn check_get_text(&self) -> (r: Result<(), crate::script::Error>)
        ensures
            r is Ok <==> self.kind == WidgetKind::TextEntry,
            r is Err ==> r->Err_0 == crate::script::Error::UnsupportedOperation,
    {
        if matches!(self.kind, WidgetKind::TextEntry) {
            Ok(())
        } else {
            Err(crate::script::Error::UnsupportedOperation)
        }
    }

    /// `set_label` works only on button-like widgets.
    pub fn check_set_label(&self) -> (r: Result<(), crate::script::Error>)
        ensures
            r is Ok <==> self.kind == WidgetKind::ButtonLike,
            r is Err ==> r->Err_0 == crate::script::Error::UnsupportedOperation,
    {
        if matches!(self.kind, WidgetKind::ButtonLike) {
            Ok(())
        } else {
            Err(crate::script::Error::UnsupportedOperation)
        }
    }
}

/// The value a `set_property` call hands to the toolkit; a value without a
/// translation is a typed failure, not a crash.
pub fn set_property_value(v: &ScriptValue) -> (r: Result<NativeValue, Error>)
    ensures
        match spec_script_to_native(*v) {
            Some(n) => r == Ok::<NativeValue, Error>(n),
            None => r matches Err(Error::NoConversionError),
        },
{
    match script_to_native(v) {
        Some(n) => Ok(n),
        None => Err(Error::NoConversionError),
    }
}

/// The value a `get_property` call returns to the script: the translation of
/// the property's native value, or a typed failure when the property does not
/// exist. A value outside the translation table produces no value.
pub fn get_property_value(found: Option<&NativeValue>, name: &String) -> (r: Result<
    Option<ScriptValue>,
    Error,
>)
    ensures
        match found {
            Some(v) => r == Ok::<Option<ScriptValue>, Error>(spec_native_to_script(*v)),
            None => (r matches Err(Error::PropertyNotFound(n)) && n@ == name@),
        },
{
    match found {
        Some(v) => Ok(native_to_script(v)),
        None => Err(Error::PropertyNotFound(name.clone())),
    }
}

// ---------------------------------------------------------------------------
// Host function decisions
// ---------------------------------------------------------------------------
/// What `submit_form` does after the synchronous response: reload on success,
/// log (and do not follow) on a redirect, nothing otherwise.
#[derive(Copy, Clone, Debug, PartialEq, Eq, Structural)]
pub enum FormAction {
    Reload,
    LogRedirect,
    NoAction,
}

pub fn form_submit_action(status: u16) -> (r: FormAction)
    ensures
        r == FormAction::Reload <==> (200 <= status < 300),
        r == FormAction::LogRedirect <==> (300 <= status < 400),
        r == FormAction::NoAction <==> (status < 200 || status >= 400),
{
    if 200 <= status && status < 300 {
        FormAction::Reload
    } else if 300 <= status && status < 400 {
        FormAction::LogRedirect
    } else {
        FormAction::NoAction
    }
}

/// A token character of an HTTP method name.
pub open spec fn is_token_char(c: char) -> bool {
    ('a' as int <= c as int <= 'z' as int) || ('A' as int <= c as int <= 'Z' as int) || (
    '0' as int <= c as int <= '9' as int) || c == '!' || c == '#' || c == '$' || c == '%' || c
        == '&' || c == '\'' || c == '*' || c == '+' || c == '-' || c == '.' || c == '^' || c == '_'
        || c == '`' || c == '|' || c == '~'
}

/// A valid HTTP method name: non-empty, token characters only.
pub open spec fn valid_method(s: Seq<char>) -> bool {
    s.len() > 0 && forall|i: int| 0 <= i < s.len() ==> is_token_char(#[trigger] s[i])
}

fn is_token_char_exec(c: char) -> (r: bool)
    ensures
        r == is_token_char(c),
{
    ('a' <= c && c <= 'z') || ('A' <= c && c <= 'Z') || ('0' <= c && c <= '9') || c == '!' || c
        == '#' || c == '$' || c == '%' || c == '&' || c == '\'' || c == '*' || c == '+' || c == '-'
        || c == '.' || c == '^' || c == '_' || c == '`' || c == '|' || c == '~'
}

/// Whether a string is usable as an HTTP method name.
pub fn check_method(m: &str) -> (r: bool)
    ensures
        r == valid_method(m@),
{
    let v = chars_of(m);
    let n = v.len();
    if n == 0 {
        return false;
    }
    let mut i: usize = 0;
    while i < n
        invariant
            0 <= i <= n,
            n == v@.len(),
            v@ == m@,
            forall|j: int| 0 <= j < i ==> is_token_char(#[trigger] m@[j]),
        decreases n - i,
    {
        if !is_token_char_exec(v[i]) {
            return false;
        }
        i += 1;
    }
    true
}

/// What the `fetch` host function's callback sees of a response: the status
/// code, and the body where it could be read as text.
pub struct FetchResponse {
    pub status_code: u16,
    pub body: Option<String>,
}

impl FetchResponse {
    pub fn new(status_code: u16, body: Option<String>) -> (r: FetchResponse)
        ensures
            r.status_code == status_code,
            r.body == body,
    {
        FetchResponse { status_code, body }
    }
}

/// The `fetch` host function's gate: a URL without a scheme separator is
/// answered at once with an error message instead of a request.
pub fn fetch_precheck(url: &String) -> (r: Result<(), String>)
    ensures
        contains_sub(url@, scheme_sep()) ==> r is Ok,
        !contains_sub(url@, scheme_sep()) ==> (r matches Err(m) && m@
            == "URL is missing protocol: "@ + url@),
{
    let v = chars_of(url.as_str());
    let sep: Vec<char> = vec![':', '/', '/'];
    proof {
        assert(sep@ =~= scheme_sep());
    }
    match find_sub_exec(v.as_slice(), sep.as_slice(), 0) {
        Some(_) => Ok(()),
        None => Err(String::from_str("URL is missing protocol: ").concat(url.as_str())),
    }
}

} // verus!
