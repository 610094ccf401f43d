//! Configuration contexts: named server/credential records and the pure
//! resolution rules that pick the active context.  Reading and writing the
//! configuration file is the application layer's business; this module only
//! works on loaded values.

use crate::text::{
    contains_seq, lemma_concat_contains_left, lemma_concat_contains_suffix, str_eq,
};
use vstd::prelude::*;
use vstd::string::StringExecFns;

verus! {

/// A server endpoint with its credentials.
#[derive(Clone, Debug)]
pub struct Context {
    pub server: String,
    pub api_key: String,
    pub api_secret: String,
    pub insecure_skip_tls_verify: bool,
    pub timeout_seconds: Option<u64>,
}

/// A context under a name, as stored in the configuration file.
#[derive(Clone, Debug)]
pub struct NamedContext {
    pub name: String,
    pub context: Context,
}

/// The loaded configuration: the list of named contexts and the name of
/// the currently selected one, if any.
#[derive(Clone, Debug)]
pub struct KasmConfig {
    pub current_context: Option<String>,
    pub contexts: Vec<NamedContext>,
}

impl Default for KasmConfig {
    /// An empty configuration: no contexts, none selected.
    fn default() -> (r: Self)
        ensures
            r.current_context is None,
            r.contexts@ =~= Seq::<NamedContext>::empty(),
    {
        KasmConfig { current_context: None, contexts: Vec::new() }
    }
}

/// Whether some entry of `contexts` carries the name.
pub open spec fn has_context(contexts: Seq<NamedContext>, name: Seq<char>) -> bool {
    exists|i: int| 0 <= i < contexts.len() && #[trigger] contexts[i].name@ == name
}

/// Whether `c` is the context of the first entry of `contexts` carrying
/// the name.
pub open spec fn is_first_context(contexts: Seq<NamedContext>, name: Seq<char>, c: Context) -> bool {
    exists|i: int|
        {
            &&& 0 <= i < contexts.len()
            &&& #[trigger] contexts[i].name@ == name
            &&& c == contexts[i].context
            &&& forall|j: int| 0 <= j < i ==> contexts[j].name@ != name
        }
}

/// Look a context up by name.  Returns the first entry with the name, or
/// an error exactly when no entry carries it; the error message names the
/// missing context and says it was not found.
pub fn find_context(contexts: &[NamedContext], name: &str) -> (r: Result<Context, String>)
    ensures
        has_context(contexts@, name@) ==> (r matches Ok(c) && is_first_context(contexts@, name@,
            c)),
        !has_context(contexts@, name@) ==> (r matches Err(m) && contains_seq(m@, name@)
            && contains_seq(m@, "not found"@)),
{
    let n = contexts.len();
    let mut i: usize = 0;
    while i < n
        invariant
            i <= n,
            n == contexts@.len(),
            forall|j: int| 0 <= j < i ==> contexts@[j].name@ != name@,
        decreases n - i,
    {
        let entry = &contexts[i];
        if str_eq(entry.name.as_str(), name) {
            let found = Context {
                server: entry.context.server.clone(),
                api_key: entry.context.api_key.clone(),
                api_secret: entry.context.api_secret.clone(),
                insecure_skip_tls_verify: entry.context.insecure_skip_tls_verify,
                timeout_seconds: entry.context.timeout_seconds,
            };
            proof {
                assert(found == contexts@[i as int].context);
            }
            return Ok(found);
        }
        i = i + 1;
    }
    let mut msg = String::from_str("context not found in config: ");
    msg.append(name);
    proof {
        lemma_not_found_message(msg@, name@);
    }
    Err(msg)
}

/// The message built from the not-found prefix and a context name
/// contains both the name and the words "not found".
proof fn lemma_not_found_message(m: Seq<char>, name: Seq<char>)
    requires
        m == "context not found in config: "@ + name,
    ensures
        contains_seq(m, name),
        contains_seq(m, "not found"@),
{
    let prefix = "context not found in config: "@;
    lemma_concat_contains_suffix(prefix, name);
    reveal_strlit("context not found in config: ");
    reveal_strlit("not found");
    assert(contains_seq(prefix, "not found"@)) by {
        assert(prefix.subrange(8, 8 + "not found"@.len() as int) =~= "not found"@);
    }
    lemma_concat_contains_left(prefix, name, "not found"@);
}

/// Duplicate a context value.  Written out field by field so that the
/// copy is known to equal the original.
fn copy_context(c: &Context) -> (r: Context)
    ensures
        r == *c,
{
    Context {
        server: c.server.clone(),
        api_key: c.api_key.clone(),
        api_secret: c.api_secret.clone(),
        insecure_skip_tls_verify: c.insecure_skip_tls_verify,
        timeout_seconds: c.timeout_seconds,
    }
}

/// Store `context` under `name`: the first entry already carrying the
/// name is replaced in place, otherwise a new entry is appended.  The
/// first context ever configured becomes the current one.
pub fn set_context(config: &mut KasmConfig, name: &str, context: &Context)
    ensures
        ({
            let oldc = old(config).contexts@;
            let newc = final (config).contexts@;
            &&& if has_context(oldc, name@) {
                &&& newc.len() == oldc.len()
                &&& exists|i: int|
                    {
                        &&& 0 <= i < oldc.len()
                        &&& #[trigger] oldc[i].name@ == name@
                        &&& (forall|j: int| 0 <= j < i ==> oldc[j].name@ != name@)
                        &&& newc[i].name == oldc[i].name
                        &&& newc[i].context == *context
                        &&& (forall|j: int| 0 <= j < oldc.len() && j != i ==> newc[j] == oldc[j])
                    }
            } else {
                &&& newc.len() == oldc.len() + 1
                &&& newc.subrange(0, oldc.len() as int) == oldc
                &&& newc[oldc.len() as int].name@ == name@
                &&& newc[oldc.len() as int].context == *context
            }
            &&& match old(config).current_context {
                None => final (config).current_context matches Some(cur) && cur@ == name@,
                Some(_) => final (config).current_context == old(config).current_context,
            }
        }),
{
    let n = config.contexts.len();
    let mut idx: usize = n;
    let mut j: usize = 0;
    while j < n
        invariant
            j <= n,
            n == config.contexts@.len(),
            idx == n || idx < j,
            idx == n ==> forall|k: int| 0 <= k < j ==> config.contexts@[k].name@ != name@,
            idx < n ==> config.contexts@[idx as int].name@ == name@ && (forall|k: int|
                0 <= k < idx ==> config.contexts@[k].name@ != name@),
        decreases n - j,
    {
        if idx == n && str_eq(config.contexts[j].name.as_str(), name) {
            idx = j;
        }
        j = j + 1;
    }

    let ghost oldc = config.contexts@;
    let ghost target: Seq<NamedContext> = if (idx as int) < oldc.len() {
        oldc.update(
            idx as int,
            NamedContext { name: oldc[idx as int].name, context: *context },
        )
    } else {
        oldc
    };
    let mut updated: Vec<NamedContext> = Vec::new();
    let mut j: usize = 0;
    proof {
        assert(updated@ =~= target.take(0));
    }
    while j < n
        invariant
            j <= n,
            n == config.contexts@.len(),
            oldc == config.contexts@,
            idx <= n,
            idx < n ==> config.contexts@[idx as int].name@ == name@,
            target == if (idx as int) < oldc.len() {
                oldc.update(
                    idx as int,
                    NamedContext { name: oldc[idx as int].name, context: *context },
                )
            } else {
                oldc
            },
            updated@ == target.take(j as int),
        decreases n - j,
    {
        let entry = &config.contexts[j];
        if j == idx {
            updated.push(NamedContext { name: entry.name.clone(), context: copy_context(context) });
        } else {
            updated.push(
                NamedContext { name: entry.name.clone(), context: copy_context(&entry.context) },
            );
        }
        proof {
            assert(target.take(j as int + 1) =~= target.take(j as int).push(target[j as int]));
        }
        j = j + 1;
    }
    proof {
        assert(target.take(n as int) =~= target);
    }
    if idx == n {
        updated.push(NamedContext { name: name.to_owned(), context: copy_context(context) });
    }

    // The first context ever configured becomes the current one.
    if config.current_context.is_none() {
        config.current_context = Some(name.to_owned());
    }
    config.contexts = updated;
}

/// Make `name` the current context.  Fails, and changes nothing, when no
/// configured context carries the name.
pub fn use_context(config: &mut KasmConfig, name: &str) -> (r: Result<(), String>)
    ensures
        final (config).contexts == old(config).contexts,
        if has_context(old(config).contexts@, name@) {
            r is Ok && (final (config).current_context matches Some(cur) && cur@ == name@)
        } else {
            &&& (r matches Err(m) && contains_seq(m@, name@) && contains_seq(m@, "not found"@))
            &&& final (config).current_context == old(config).current_context
        },
{
    let n = config.contexts.len();
    let mut j: usize = 0;
    let mut found = false;
    while j < n
        invariant
            j <= n,
            n == config.contexts@.len(),
            !found ==> forall|k: int| 0 <= k < j ==> config.contexts@[k].name@ != name@,
            found ==> has_context(config.contexts@, name@),
        decreases n - j,
    {
        if str_eq(config.contexts[j].name.as_str(), name) {
            found = true;
        }
        j = j + 1;
    }
    if found {
        config.current_context = Some(name.to_owned());
        Ok(())
    } else {
        let mut msg = String::from_str("context not found in config: ");
        msg.append(name);
        proof {
            lemma_not_found_message(msg@, name@);
        }
        Err(msg)
    }
}

/// Build a context from an explicit server URL and credentials: never
/// fails, TLS verification on, no timeout override.
pub fn resolve_server_override(server: &str, api_key: String, api_secret: String) -> (r: Result<
    Context,
    String,
>)
    ensures
        r matches Ok(c) && c.server@ == server@ && c.api_key == api_key && c.api_secret
            == api_secret && !c.insecure_skip_tls_verify && c.timeout_seconds is None,
{
    Ok(
        Context {
            server: server.to_owned(),
            api_key,
            api_secret,
            insecure_skip_tls_verify: false,
            timeout_seconds: None,
        },
    )
}

/// The context name `resolve_from_config` will look up: an explicit
/// override wins over the configured current context.
pub open spec fn effective_context_name(
    config: KasmConfig,
    context_override: Option<&str>,
) -> Option<Seq<char>> {
    match context_override {
        Some(n) => Some(n@),
        None => match config.current_context {
            Some(c) => Some(c@),
            None => None,
        },
    }
}

/// Resolve a context from a loaded configuration, with an optional
/// context-name override.  Fails when neither an override nor a current
/// context names one, or when the named context does not exist.
pub fn resolve_from_config(config: &KasmConfig, context_override: Option<&str>) -> (r: Result<
    Context,
    String,
>)
    ensures
        match effective_context_name(*config, context_override) {
            None => (r matches Err(m) && contains_seq(m@, "no context"@)),
            Some(name) => {
                &&& has_context(config.contexts@, name) ==> (r matches Ok(c) && is_first_context(
                    config.contexts@,
                    name,
                    c,
                ))
                &&& !has_context(config.contexts@, name) ==> (r matches Err(m) && contains_seq(
                    m@,
                    name,
                ) && contains_seq(m@, "not found"@))
            },
        },
{
    match context_override {
        Some(n) => find_context(self_slice(&config.contexts), n),
        None => match &config.current_context {
            Some(c) => find_context(self_slice(&config.contexts), c.as_str()),
            None => {
                let msg = String::from_str("no context configured - set a current context first");
                proof {
                    reveal_strlit("no context configured - set a current context first");
                    reveal_strlit("no context");
                    assert(contains_seq(msg@, "no context"@)) by {
                        assert(msg@.subrange(0, 0 + "no context"@.len() as int) =~= "no context"@);
                    }
                }
                Err(msg)
            },
        },
    }
}

/// View a vector of named contexts as a slice.
fn self_slice(v: &Vec<NamedContext>) -> (r: &[NamedContext])
    ensures
        r@ == v@,
{
    v.as_slice()
}

} // verus!
