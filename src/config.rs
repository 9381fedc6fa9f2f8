use vstd::prelude::*;
use crate::text::{chars_of, copy_text, has_suffix, join, same_text};

verus! {

/// The kinds of provider.
#[derive(PartialEq, Eq, Structural, Clone, Copy, Debug)]
pub enum ProviderType {
    Ollama,
    OpenAI,
    Anthropic,
    Google,
    /// Other OpenAI-compatible services.
    Other,
}

impl Default for ProviderType {
    fn default() -> (r: ProviderType)
        ensures
            r == ProviderType::Ollama,
    {
        ProviderType::Ollama
    }
}

/// How to reach one provider.
#[derive(Clone, Debug, PartialEq)]
pub struct ProviderConfig {
    pub id: String,
    pub name: String,
    pub provider_type: ProviderType,
    pub api_key: Option<String>,
    pub base_url: Option<String>,
    pub enabled: bool,
}

/// The id of the local provider that always exists.
pub open spec fn default_id() -> Seq<char> {
    "local-default"@
}

/// The base URL of a kind of provider, where the config gives none.
pub open spec fn default_base(t: ProviderType) -> Seq<char> {
    match t {
        ProviderType::Ollama => "http://localhost:11434"@,
        ProviderType::OpenAI => "https://api.openai.com"@,
        ProviderType::Anthropic => "https://api.anthropic.com"@,
        ProviderType::Google => "https://generativelanguage.googleapis.com"@,
        ProviderType::Other => "https://api.example.com"@,
    }
}

pub open spec fn base_url_of(c: ProviderConfig) -> Seq<char> {
    match c.base_url {
        Some(u) => u@,
        None => default_base(c.provider_type),
    }
}

impl ProviderConfig {
    /// The local provider as it is first set up.
    pub fn ollama_default() -> (r: ProviderConfig)
        ensures
            r.id@ == default_id(),
            r.name@ == "Ollama (Local)"@,
            r.provider_type == ProviderType::Ollama,
            r.api_key is None,
            r.base_url matches Some(u) && u@ == "http://localhost:11434"@,
            r.enabled,
    {
        ProviderConfig {
            id: copy_text("local-default"),
            name: copy_text("Ollama (Local)"),
            provider_type: ProviderType::Ollama,
            api_key: None,
            base_url: Some(copy_text("http://localhost:11434")),
            enabled: true,
        }
    }

    /// The configured base URL, or the default of the provider's kind.
    pub fn get_base_url(&self) -> (r: String)
        ensures
            r@ == base_url_of(*self),
    {
        match &self.base_url {
            Some(u) => copy_text(u.as_str()),
            None => match self.provider_type {
                ProviderType::Ollama => copy_text("http://localhost:11434"),
                ProviderType::OpenAI => copy_text("https://api.openai.com"),
                ProviderType::Anthropic => copy_text("https://api.anthropic.com"),
                ProviderType::Google => copy_text("https://generativelanguage.googleapis.com"),
                ProviderType::Other => copy_text("https://api.example.com"),
            },
        }
    }
}

/// The chat endpoint of the local daemon.
pub fn ollama_endpoint(base: &str) -> (r: String)
    ensures
        r@ == base@ + "/api/chat"@,
{
    join(base, "/api/chat")
}

pub open spec fn ends_with_v1(base: Seq<char>) -> bool {
    base.len() >= 3 && base.subrange(base.len() - 3, base.len() as int) == "/v1"@
}

/// The chat endpoint of an OpenAI-compatible service: a base that already
/// ends in `/v1` is not given another.
pub fn openai_endpoint(base: &str) -> (r: String)
    ensures
        ends_with_v1(base@) ==> r@ == base@ + "/chat/completions"@,
        !ends_with_v1(base@) ==> r@ == base@ + "/v1/chat/completions"@,
{
    let cs = chars_of(base);
    let v1 = chars_of("/v1");
    proof { reveal_strlit("/v1"); }
    if has_suffix(cs.as_slice(), v1.as_slice()) {
        join(base, "/chat/completions")
    } else {
        join(base, "/v1/chat/completions")
    }
}

pub fn anthropic_endpoint(base: &str) -> (r: String)
    ensures
        r@ == base@ + "/v1/messages"@,
{
    join(base, "/v1/messages")
}

/// The streaming endpoint of a Google-style service, with the key in the query.
pub fn google_endpoint(base: &str, model: &str, key: &str) -> (r: String)
    ensures
        r@ == base@ + "/v1beta/models/"@ + model@ + ":streamGenerateContent?alt=sse&key="@ + key@,
{
    let mut r = join(base, "/v1beta/models/");
    r.append(model);
    r.append(":streamGenerateContent?alt=sse&key=");
    r.append(key);
    r
}

pub open spec fn ids_of(list: Seq<ProviderConfig>) -> Seq<Seq<char>> {
    list.map_values(|c: ProviderConfig| c.id@)
}

pub open spec fn has_id(list: Seq<ProviderConfig>, id: Seq<char>) -> bool {
    exists|i: int| 0 <= i < list.len() && list[i].id@ == id
}

fn position(list: &Vec<ProviderConfig>, id: &str) -> (r: Option<usize>)
    ensures
        r matches Some(i) ==> i < list@.len() && list@[i as int].id@ == id@,
        r is None ==> !has_id(list@, id@),
{
    let mut i: usize = 0;
    while i < list.len()
        invariant
            i <= list@.len(),
            forall|j: int| 0 <= j < i ==> list@[j].id@ != id@,
        decreases list@.len() - i,
    {
        if same_text(list[i].id.as_str(), id) {
            return Some(i);
        }
        i = i + 1;
    }
    None
}

/// Adds a provider; an id that is taken is refused.
pub fn add_provider(list: &mut Vec<ProviderConfig>, config: ProviderConfig) -> (r: Result<(), String>)
    ensures
        has_id(old(list)@, config.id@) <==> r is Err,
        r is Err ==> final(list)@ == old(list)@,
        r is Ok ==> final(list)@ == old(list)@.push(config),
{
    match position(list, config.id.as_str()) {
        Some(_) => {
            let mut m = join("Provider with ID '", config.id.as_str());
            m.append("' already exists");
            Err(m)
        },
        None => {
            list.push(config);
            Ok(())
        },
    }
}

/// Replaces the provider with the same id; an unknown id is refused.
pub fn update_provider(list: &mut Vec<ProviderConfig>, config: ProviderConfig) -> (r: Result<(), String>)
    ensures
        !has_id(old(list)@, config.id@) <==> r is Err,
        r is Err ==> final(list)@ == old(list)@,
        r is Ok ==> exists|i: int| 0 <= i < old(list)@.len() && old(list)@[i].id@ == config.id@
            && final(list)@ == old(list)@.update(i, config),
{
    match position(list, config.id.as_str()) {
        Some(i) => {
            list.set(i, config);
            Ok(())
        },
        None => {
            let mut m = join("Provider with ID '", config.id.as_str());
            m.append("' not found");
            Err(m)
        },
    }
}

/// Removes every provider with `id`; the local default cannot be removed.
/// Where the removed provider was active, the local default becomes active.
pub fn delete_provider(list: &mut Vec<ProviderConfig>, active: &mut Option<String>, id: &str) -> (r: Result<(), String>)
    ensures
        (id@ == default_id()) <==> r is Err,
        r is Err ==> final(list)@ == old(list)@ && *final(active) == *old(active),
        r is Ok ==> final(list)@ == old(list)@.filter(|c: ProviderConfig| c.id@ != id@),
        r is Ok && (*old(active) matches Some(a) && a@ == id@) ==> (*final(active) matches Some(a) && a@ == default_id()),
        r is Ok && !(*old(active) matches Some(a) && a@ == id@) ==> *final(active) == *old(active),
{
    if same_text(id, "local-default") {
        return Err(copy_text("Cannot delete the default provider"));
    }
    let ghost orig = list@;
    let mut kept: Vec<ProviderConfig> = Vec::new();
    let mut all: Vec<ProviderConfig> = Vec::new();
    core::mem::swap(&mut all, list);
    let n = all.len();
    let mut k: usize = 0;
    assert(orig.subrange(0, 0).filter(|c: ProviderConfig| c.id@ != id@) =~= Seq::<ProviderConfig>::empty());
    while k < n
        invariant
            n == orig.len(),
            all@.len() == n - k,
            forall|i: int| 0 <= i < all@.len() ==> all@[i] == orig[k + i],
            kept@ == orig.subrange(0, k as int).filter(|c: ProviderConfig| c.id@ != id@),
        decreases n - k,
    {
        let ghost prev = all@;
        let c = all.remove(0);
        assert(orig.subrange(0, k + 1).drop_last() =~= orig.subrange(0, k as int));
        assert(c == orig[k as int]);
        if !same_text(c.id.as_str(), id) {
            kept.push(c);
        }
        proof {
            assert forall|i: int| 0 <= i < all@.len() implies all@[i] == orig[k + 1 + i] by {
                assert(all@[i] == prev[i + 1]);
            }
            reveal(Seq::filter);
        }
        k = k + 1;
    }
    assert(orig.subrange(0, n as int) =~= orig);
    *list = kept;
    let was_active = match active {
        Some(a) => same_text(a.as_str(), id),
        None => false,
    };
    if was_active {
        *active = Some(copy_text("local-default"));
    }
    Ok(())
}

/// The provider with the active id, or the local default where none is set.
pub fn active_provider<'a>(list: &'a Vec<ProviderConfig>, active: &Option<String>) -> (r: Result<&'a ProviderConfig, String>)
    ensures
        r matches Ok(c) ==> has_id(list@, c.id@) && c.id@ == match active { Some(a) => a@, None => default_id() },
        r is Err ==> !has_id(list@, match active { Some(a) => a@, None => default_id() }),
{
    let found = match active {
        Some(a) => position(list, a.as_str()),
        None => position(list, "local-default"),
    };
    match found {
        Some(i) => Ok(&list[i]),
        None => Err(copy_text("Active provider not found")),
    }
}

/// Checks that a provider with `id` exists before it is made active.
pub fn check_can_activate(list: &Vec<ProviderConfig>, id: &str) -> (r: Result<(), String>)
    ensures
        r is Ok <==> has_id(list@, id@),
{
    match position(list, id) {
        Some(_) => Ok(()),
        None => {
            let mut m = join("Provider with ID '", id);
            m.append("' not found");
            Err(m)
        },
    }
}

} // verus!

verus! {

/// Settings as read are repaired: the local default provider is put first
/// where it is missing, and becomes active where none is.
pub fn ensure_default_provider(list: &mut Vec<ProviderConfig>, active: &mut Option<String>)
    ensures
        has_id(old(list)@, default_id()) ==> final(list)@ == old(list)@,
        !has_id(old(list)@, default_id()) ==> final(list)@.len() == old(list)@.len() + 1
            && final(list)@.drop_first() == old(list)@ && final(list)@[0].id@ == default_id()
            && final(list)@[0].provider_type == ProviderType::Ollama,
        has_id(final(list)@, default_id()),
        *old(active) is Some ==> *final(active) == *old(active),
        *old(active) is None ==> (*final(active) matches Some(a) && a@ == default_id()),
{
    match position(list, "local-default") {
        Some(_) => {},
        None => {
            let ghost before = list@;
            list.insert(0, ProviderConfig::ollama_default());
            assert(list@.drop_first() =~= before);
            assert(list@[0].id@ == default_id());
        },
    }
    if active.is_none() {
        *active = Some(copy_text("local-default"));
    }
}

} // verus!
