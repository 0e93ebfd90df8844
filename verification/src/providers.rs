use vstd::prelude::*;
use vstd::string::StringExecFns;
use crate::error::{ErrorView, OrchestratorError, OrchestratorResult};
use crate::json::{JsonTree, JsonTreeView, element, element_of, json_parse_bytes, json_text, json_text_of, member, member_of, parse_json_bytes};
use crate::table::Table;
use crate::text::{chars_of, string_of, chars_between, lossy_text, utf8_lossy};

verus! {

/// The providers available to a workflow, by name. A provider is only
/// registered when its key was found in the environment.
pub struct ProviderRegistry<P> {
    providers: Table<P>,
}

impl<P> ProviderRegistry<P> {
    pub closed spec fn view(&self) -> Map<Seq<char>, P> {
        self.providers@
    }

    /// The names, in the order in which they were first registered.
    pub closed spec fn name_seq(&self) -> Seq<Seq<char>> {
        self.providers.key_seq()
    }

    pub fn new() -> (r: Self)
        ensures
            r@ == Map::<Seq<char>, P>::empty(),
            r.name_seq() == Seq::<Seq<char>>::empty(),
    {
        ProviderRegistry { providers: Table::new() }
    }

    /// Registers `provider` under `name`, replacing any provider of that name.
    pub fn register(&mut self, name: String, provider: P)
        ensures
            final(self)@ == old(self)@.insert(name@, provider),
            old(self)@.contains_key(name@) ==> final(self).name_seq() == old(self).name_seq(),
            !old(self)@.contains_key(name@) ==> final(self).name_seq() == old(self).name_seq().push(
                name@,
            ),
    {
        self.providers.insert(name, provider);
    }

    pub fn get(&self, name: &str) -> (r: Option<&P>)
        ensures
            match r {
                Some(p) => self@.contains_key(name@) && self@[name@] == *p,
                None => !self@.contains_key(name@),
            },
    {
        self.providers.get(name)
    }

    /// The registered names.
    pub fn names(&self) -> (r: Vec<String>)
        ensures
            r@.map_values(|s: String| s@) == self.name_seq(),
    {
        let entries = self.providers.entries();
        let mut r: Vec<String> = Vec::new();
        let mut i: usize = 0;
        while i < entries.len()
            invariant
                entries@ == self.providers.entry_seq(),
                i <= entries@.len(),
                r@.map_values(|s: String| s@) == self.name_seq().take(i as int),
            decreases entries@.len() - i,
        {
            let ghost before = r@.map_values(|s: String| s@);
            r.push(entries[i].0.clone());
            assert(r@.map_values(|s: String| s@) =~= before.push(entries@[i as int].0@));
            assert(self.name_seq().take(i + 1) =~= self.name_seq().take(i as int).push(
                entries@[i as int].0@,
            ));
            i = i + 1;
        }
        assert(self.name_seq().take(i as int) =~= self.name_seq());
        r
    }
}

impl<P> Default for ProviderRegistry<P> {
    fn default() -> (r: Self)
        ensures
            r@ == Map::<Seq<char>, P>::empty(),
    {
        Self::new()
    }
}

/// One message of a chat completion request.
pub struct ChatMessage {
    pub role: String,
    pub content: String,
}

/// The messages of an OpenAI-compatible chat request: the system prompt
/// first when there is one, then the user prompt.
pub open spec fn chat_messages_spec(system: Option<Seq<char>>, prompt: Seq<char>) -> Seq<(Seq<char>, Seq<char>)> {
    match system {
        Some(s) => seq![("system"@, s), ("user"@, prompt)],
        None => seq![("user"@, prompt)],
    }
}

pub open spec fn messages_view(m: Seq<ChatMessage>) -> Seq<(Seq<char>, Seq<char>)> {
    m.map_values(|c: ChatMessage| (c.role@, c.content@))
}

pub fn chat_messages(system: Option<&str>, prompt: &str) -> (m: Vec<ChatMessage>)
    ensures
        messages_view(m@) == chat_messages_spec(
            match system {
                Some(s) => Some(s@),
                None => None,
            },
            prompt@,
        ),
{
    let mut m: Vec<ChatMessage> = Vec::new();
    match system {
        Some(s) => m.push(ChatMessage { role: String::from_str("system"), content: String::from_str(s) }),
        None => {},
    }
    m.push(ChatMessage { role: String::from_str("user"), content: String::from_str(prompt) });
    assert(messages_view(m@) =~= chat_messages_spec(
        match system {
            Some(s) => Some(s@),
            None => None,
        },
        prompt@,
    ));
    m
}

/// `s` without its trailing `/` characters.
pub open spec fn trim_trailing_slashes(s: Seq<char>) -> Seq<char>
    decreases s.len(),
{
    if s.len() > 0 && s.last() == '/' {
        trim_trailing_slashes(s.drop_last())
    } else {
        s
    }
}

/// The chat completion endpoint under `base_url`.
pub open spec fn chat_url_spec(base_url: Seq<char>) -> Seq<char> {
    trim_trailing_slashes(base_url) + "/chat/completions"@
}

pub fn chat_url(base_url: &str) -> (u: String)
    ensures
        u@ == chat_url_spec(base_url@),
{
    let v = chars_of(base_url);
    let mut end = v.len();
    assert(v@.take(end as int) =~= v@);
    while end > 0 && v[end - 1] == '/'
        invariant
            end <= v@.len(),
            trim_trailing_slashes(v@) == trim_trailing_slashes(v@.take(end as int)),
        decreases end,
    {
        assert(v@.take(end as int).drop_last() =~= v@.take(end - 1));
        end = end - 1;
    }
    assert(v@.take(end as int) =~= v@.subrange(0, end as int));
    let mut u = string_of(&chars_between(&v, 0, end));
    u.append("/chat/completions");
    u
}

/// Whether an HTTP status is a success (2xx).
pub open spec fn is_success_spec(status: u16) -> bool {
    200 <= status < 300
}

pub fn is_success(status: u16) -> (b: bool)
    ensures
        b == is_success_spec(status),
{
    200 <= status && status < 300
}

/// Where Moonshot's OpenAI-compatible API lives.
pub const MOONSHOT_BASE_URL: &'static str = "https://api.moonshot.ai/v1";

/// Where OpenAI's API lives.
pub const OPENAI_BASE_URL: &'static str = "https://api.openai.com/v1";

/// Where Anthropic's API lives.
pub const ANTHROPIC_BASE_URL: &'static str = "https://api.anthropic.com";

/// The Anthropic API version that requests ask for.
pub const ANTHROPIC_VERSION: &'static str = "2023-06-01";

/// How many tokens an Anthropic answer may hold.
pub const DEFAULT_MAX_TOKENS: u32 = 4096;

/// The name under which the Anthropic provider registers and reports errors.
pub const ANTHROPIC_NAME: &'static str = "anthropic";

/// The message of the HTTP error for a successful reply whose body is not
/// JSON, as reqwest words a body that it cannot decode.
pub const DECODE_ERROR: &'static str = "error decoding response body";

/// The body of an OpenAI-compatible chat completion request.
pub struct ChatRequest {
    pub model: String,
    pub messages: Vec<ChatMessage>,
}

pub fn chat_request(system: Option<&str>, prompt: &str, model: &str) -> (r: ChatRequest)
    ensures
        r.model@ == model@,
        messages_view(r.messages@) == chat_messages_spec(
            match system {
                Some(s) => Some(s@),
                None => None,
            },
            prompt@,
        ),
{
    ChatRequest { model: String::from_str(model), messages: chat_messages(system, prompt) }
}

/// The body of an Anthropic Messages request: the system prompt stands in a
/// field of its own, beside a single user message.
pub struct AnthropicRequest {
    pub model: String,
    pub max_tokens: u32,
    pub messages: Vec<ChatMessage>,
    pub system: Option<String>,
}

pub fn anthropic_request(system: Option<&str>, prompt: &str, model: &str) -> (r: AnthropicRequest)
    ensures
        r.model@ == model@,
        r.max_tokens == DEFAULT_MAX_TOKENS,
        messages_view(r.messages@) == seq![("user"@, prompt@)],
        match system {
            Some(s) => r.system matches Some(t) && t@ == s@,
            None => r.system is None,
        },
{
    let mut messages: Vec<ChatMessage> = Vec::new();
    messages.push(ChatMessage { role: String::from_str("user"), content: String::from_str(prompt) });
    assert(messages_view(messages@) =~= seq![("user"@, prompt@)]);
    let system = match system {
        Some(s) => Some(String::from_str(s)),
        None => None,
    };
    AnthropicRequest { model: String::from_str(model), max_tokens: DEFAULT_MAX_TOKENS, messages, system }
}

/// The Anthropic Messages endpoint.
pub fn anthropic_url() -> (u: String)
    ensures
        u@ == ANTHROPIC_BASE_URL@ + "/v1/messages"@,
{
    let mut u = String::from_str(ANTHROPIC_BASE_URL);
    u.append("/v1/messages");
    u
}

/// `["choices"][0]["message"]["content"]` of a chat completion reply, where
/// it is a string.
pub open spec fn openai_content(t: JsonTreeView) -> Option<Seq<char>> {
    match member(t, "choices"@) {
        Some(c) => match element(c, 0) {
            Some(e) => match member(e, "message"@) {
                Some(m) => match member(m, "content"@) {
                    Some(JsonTreeView::Text(s)) => Some(s),
                    _ => None,
                },
                None => None,
            },
            None => None,
        },
        None => None,
    }
}

/// `["content"][0]["text"]` of an Anthropic Messages reply, where it is a
/// string.
pub open spec fn anthropic_text(t: JsonTreeView) -> Option<Seq<char>> {
    match member(t, "content"@) {
        Some(c) => match element(c, 0) {
            Some(e) => match member(e, "text"@) {
                Some(JsonTreeView::Text(s)) => Some(s),
                _ => None,
            },
            None => None,
        },
        None => None,
    }
}

fn text_of(t: Option<&JsonTree>) -> (r: Option<String>)
    ensures
        match t {
            Some(JsonTree::Text(s)) => r matches Some(x) && x@ == s@,
            _ => r is None,
        },
{
    match t {
        Some(JsonTree::Text(s)) => Some(s.clone()),
        _ => None,
    }
}

pub fn openai_content_of(t: &JsonTree) -> (r: Option<String>)
    ensures
        match r {
            Some(s) => openai_content(t@) == Some(s@),
            None => openai_content(t@) is None,
        },
{
    match member_of(t, "choices") {
        Some(c) => match element_of(c, 0) {
            Some(e) => match member_of(e, "message") {
                Some(m) => text_of(member_of(m, "content")),
                None => None,
            },
            None => None,
        },
        None => None,
    }
}

pub fn anthropic_text_of(t: &JsonTree) -> (r: Option<String>)
    ensures
        match r {
            Some(s) => anthropic_text(t@) == Some(s@),
            None => anthropic_text(t@) is None,
        },
{
    match member_of(t, "content") {
        Some(c) => match element_of(c, 0) {
            Some(e) => text_of(member_of(e, "text")),
            None => None,
        },
        None => None,
    }
}

/// What a provider call gives back for a reply with `status` and `body`:
/// the provider's error for a failed status; for a successful one, an HTTP
/// error where the body is not JSON (`parsed` is none), else the text that
/// `answer` found in it, or a parse error that quotes the reply (`missing`
/// followed by its JSON text).
pub open spec fn reply_spec(
    status: u16,
    body: Seq<char>,
    provider: Seq<char>,
    parsed: Option<JsonTreeView>,
    answer: Option<Seq<char>>,
    missing: Seq<char>,
) -> Result<Seq<char>, ErrorView> {
    if !is_success_spec(status) {
        Err(ErrorView::ProviderStatus { provider, status, body })
    } else {
        match parsed {
            None => Err(ErrorView::Http(DECODE_ERROR@)),
            Some(t) => match answer {
                Some(s) => Ok(s),
                None => Err(ErrorView::Parse(missing + json_text_of(t))),
            },
        }
    }
}

pub open spec fn result_view(r: OrchestratorResult<String>) -> Result<Seq<char>, ErrorView> {
    match r {
        Ok(s) => Ok(s@),
        Err(e) => Err(e@),
    }
}

/// What a chat completion call gives back, from the reply's status, its body
/// and the document that the body parsed to.
pub open spec fn chat_reply_spec(status: u16, body: Seq<char>, provider: Seq<char>, parsed: Option<JsonTreeView>) -> Result<Seq<char>, ErrorView> {
    reply_spec(
        status,
        body,
        provider,
        parsed,
        match parsed {
            Some(t) => openai_content(t),
            None => None,
        },
        "no content in "@ + provider + " response: "@,
    )
}

/// What an Anthropic Messages call gives back, from the reply's status, its
/// body and the document that the body parsed to.
pub open spec fn anthropic_reply_spec(status: u16, body: Seq<char>, parsed: Option<JsonTreeView>) -> Result<Seq<char>, ErrorView> {
    reply_spec(
        status,
        body,
        ANTHROPIC_NAME@,
        parsed,
        match parsed {
            Some(t) => anthropic_text(t),
            None => None,
        },
        "no text in "@ + ANTHROPIC_NAME@ + " response: "@,
    )
}

fn reply(
    status: u16,
    body: String,
    provider: &str,
    parsed: Option<&JsonTree>,
    answer: Option<String>,
    missing: String,
) -> (r: OrchestratorResult<String>)
    ensures
        result_view(r) == reply_spec(
            status,
            body@,
            provider@,
            match parsed {
                Some(t) => Some(t@),
                None => None,
            },
            match answer {
                Some(a) => Some(a@),
                None => None,
            },
            missing@,
        ),
{
    if !is_success(status) {
        return Err(OrchestratorError::ProviderStatus { provider: String::from_str(provider), status, body });
    }
    match parsed {
        None => Err(OrchestratorError::Http(String::from_str(DECODE_ERROR))),
        Some(t) => match answer {
            Some(s) => Ok(s),
            None => {
                let mut m = missing;
                m.append(json_text(t).as_str());
                Err(OrchestratorError::Parse(m))
            },
        },
    }
}

/// What a chat completion call gives back for a reply with `status` and
/// `body`, once the body has been parsed to `parsed`.
pub fn chat_reply(status: u16, body: String, provider: &str, parsed: Option<&JsonTree>) -> (r: OrchestratorResult<String>)
    ensures
        result_view(r) == chat_reply_spec(
            status,
            body@,
            provider@,
            match parsed {
                Some(t) => Some(t@),
                None => None,
            },
        ),
{
    let answer = match parsed {
        Some(t) => openai_content_of(t),
        None => None,
    };
    let mut missing = String::from_str("no content in ");
    missing.append(provider);
    missing.append(" response: ");
    reply(status, body, provider, parsed, answer, missing)
}

/// What an Anthropic Messages call gives back for a reply with `status` and
/// `body`, once the body has been parsed to `parsed`.
pub fn anthropic_reply(status: u16, body: String, parsed: Option<&JsonTree>) -> (r: OrchestratorResult<String>)
    ensures
        result_view(r) == anthropic_reply_spec(
            status,
            body@,
            match parsed {
                Some(t) => Some(t@),
                None => None,
            },
        ),
{
    let answer = match parsed {
        Some(t) => anthropic_text_of(t),
        None => None,
    };
    let mut missing = String::from_str("no text in ");
    missing.append(ANTHROPIC_NAME);
    missing.append(" response: ");
    reply(status, body, ANTHROPIC_NAME, parsed, answer, missing)
}

/// The body of a successful reply, parsed; none for a failed status, whose
/// body is not read as JSON.
fn parsed_reply(status: u16, body: &[u8]) -> (r: Option<JsonTree>)
    ensures
        is_success_spec(status) ==> match r {
            Some(t) => json_parse_bytes(body@) == Some(t@),
            None => json_parse_bytes(body@) is None,
        },
{
    if is_success(status) {
        parse_json_bytes(body)
    } else {
        None
    }
}

/// What a chat completion call gives back for a reply with `status` and the
/// raw bytes `body`: a failed reply quotes its body as text, a successful one
/// is read as JSON.
pub fn chat_answer(status: u16, body: Vec<u8>, provider: &str) -> (r: OrchestratorResult<String>)
    ensures
        result_view(r) == chat_reply_spec(status, lossy_text(body@), provider@, json_parse_bytes(body@)),
{
    let parsed = parsed_reply(status, body.as_slice());
    let text = utf8_lossy(body.as_slice());
    match &parsed {
        Some(t) => chat_reply(status, text, provider, Some(t)),
        None => chat_reply(status, text, provider, None),
    }
}

/// What an Anthropic Messages call gives back for a reply with `status` and
/// the raw bytes `body`: a failed reply quotes its body as text, a successful
/// one is read as JSON.
pub fn anthropic_answer(status: u16, body: Vec<u8>) -> (r: OrchestratorResult<String>)
    ensures
        result_view(r) == anthropic_reply_spec(status, lossy_text(body@), json_parse_bytes(body@)),
{
    let parsed = parsed_reply(status, body.as_slice());
    let text = utf8_lossy(body.as_slice());
    match &parsed {
        Some(t) => anthropic_reply(status, text, Some(t)),
        None => anthropic_reply(status, text, None),
    }
}

/// `t["content"][0]["text"]` is the string `s`.
pub open spec fn text_block_holds(t: JsonTreeView, s: Seq<char>) -> bool {
    &&& member(t, "content"@) matches Some(JsonTreeView::Array(v))
    &&& v.len() > 0
    &&& member(v[0], "text"@) == Some(JsonTreeView::Text(s))
}

/// `t["choices"][0]["message"]["content"]` is the string `s`.
pub open spec fn first_choice_holds(t: JsonTreeView, s: Seq<char>) -> bool {
    &&& member(t, "choices"@) matches Some(JsonTreeView::Array(v))
    &&& v.len() > 0
    &&& member(v[0], "message"@) matches Some(m)
    &&& member(m, "content"@) == Some(JsonTreeView::Text(s))
}

/// A successful reply answers with the text at its path, whatever else it
/// holds (a stop reason, usage, ids): an Anthropic reply with the string `s`
/// at `content[0].text`, a chat completion with the string `s` at
/// `choices[0].message.content`. A reply with no string there is a parse
/// error that quotes it.
pub proof fn lemma_replies_answer_with_the_text_at_their_path(
    status: u16,
    body: Seq<char>,
    provider: Seq<char>,
    t: JsonTreeView,
    s: Seq<char>,
)
    requires
        is_success_spec(status),
    ensures
        text_block_holds(t, s) ==> anthropic_reply_spec(status, body, Some(t)) == Ok::<Seq<char>, ErrorView>(s),
        first_choice_holds(t, s) ==> chat_reply_spec(status, body, provider, Some(t)) == Ok::<Seq<char>, ErrorView>(s),
        (forall|x: Seq<char>| !#[trigger] text_block_holds(t, x)) ==> anthropic_reply_spec(status, body, Some(t))
            == Err::<Seq<char>, ErrorView>(ErrorView::Parse("no text in "@ + ANTHROPIC_NAME@ + " response: "@ + json_text_of(t))),
        (forall|x: Seq<char>| !#[trigger] first_choice_holds(t, x)) ==> chat_reply_spec(status, body, provider, Some(t))
            == Err::<Seq<char>, ErrorView>(ErrorView::Parse("no content in "@ + provider + " response: "@ + json_text_of(t))),
{
    match anthropic_text(t) {
        Some(x) => {
            assert(text_block_holds(t, x));
        },
        None => {},
    }
    match openai_content(t) {
        Some(x) => {
            assert(first_choice_holds(t, x));
        },
        None => {},
    }
}

} // verus!
