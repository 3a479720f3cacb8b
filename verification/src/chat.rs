//! Provider-neutral chat requests and responses.

use vstd::prelude::*;

use crate::text::same_text;

verus! {

/// `String::from` makes an owned copy of a string slice.
pub assume_specification<'a>[ <String as From<&'a str>>::from ](s: &str) -> (r: String)
    ensures
        r@ == s@,
;

/// Message role in a chat turn.
#[derive(Debug, Clone, Copy, PartialEq, Eq, Structural)]
pub enum Role {
    /// Message from the user.
    User,
    /// Message from the assistant (the model).
    Assistant,
}

impl Role {
    /// The role's wire label.
    pub open spec fn label(self) -> Seq<char> {
        match self {
            Role::User => "user"@,
            Role::Assistant => "assistant"@,
        }
    }

    /// Canonical wire-format string.
    pub fn as_str(self) -> (s: &'static str)
        ensures
            s@ == self.label(),
    {
        match self {
            Role::User => "user",
            Role::Assistant => "assistant",
        }
    }

    /// The role whose label is `s`, exactly as written.
    pub fn from_label(s: &str) -> (r: Option<Role>)
        ensures
            r matches Some(role) ==> role.label() == s@,
            r is None ==> forall|role: Role| #![trigger role.label()] role.label() != s@,
    {
        if same_text(s, "user") {
            Some(Role::User)
        } else if same_text(s, "assistant") {
            Some(Role::Assistant)
        } else {
            assert forall|role: Role| #[trigger] role.label() != s@ by {
                match role {
                    Role::User => {},
                    Role::Assistant => {},
                }
            }
            None
        }
    }
}

/// One message in the chat history.
#[derive(Debug, Clone)]
pub struct ChatMessage {
    /// Role.
    pub role: Role,
    /// Message text.
    pub content: String,
}

impl ChatMessage {
    /// A message from the user.
    #[must_use]
    pub fn user<T: Into<String>>(content: T) -> (m: ChatMessage)
        ensures
            m.role is User,
            call_ensures(T::into, (content,), m.content),
    {
        ChatMessage { role: Role::User, content: content.into() }
    }

    /// A message from the assistant.
    #[must_use]
    pub fn assistant<T: Into<String>>(content: T) -> (m: ChatMessage)
        ensures
            m.role is Assistant,
            call_ensures(T::into, (content,), m.content),
    {
        ChatMessage { role: Role::Assistant, content: content.into() }
    }
}

/// Provider-neutral chat completion request, over the type `F` that temperatures
/// are given in.
#[derive(Debug, Clone)]
pub struct ChatRequest<F> {
    /// Optional system prompt.
    pub system: Option<String>,
    /// User and assistant messages.
    pub messages: Vec<ChatMessage>,
    /// Maximum tokens to generate.
    pub max_tokens: u32,
    /// Sampling temperature. `None` to defer to provider default.
    pub temperature: Option<F>,
}

impl<F> ChatRequest<F> {
    /// Build a request from a single user prompt.
    #[must_use]
    pub fn user_prompt<T: Into<String>>(prompt: T) -> (r: ChatRequest<F>)
        ensures
            r.system is None,
            r.messages@.len() == 1,
            r.messages@[0].role is User,
            call_ensures(T::into, (prompt,), r.messages@[0].content),
            r.max_tokens == 1024,
            r.temperature is None,
    {
        ChatRequest {
            system: None,
            messages: vec![ChatMessage::user(prompt)],
            max_tokens: 1024,
            temperature: None,
        }
    }

    /// Override the max-tokens cap.
    #[must_use]
    pub fn with_max_tokens(self, n: u32) -> (r: ChatRequest<F>)
        ensures
            r == (ChatRequest { max_tokens: n, ..self }),
    {
        let mut request = self;
        request.max_tokens = n;
        request
    }
}

/// Token usage report.
#[derive(Debug, Clone, Copy)]
pub struct Usage {
    /// Tokens consumed by the prompt.
    pub input_tokens: u32,
    /// Tokens generated.
    pub output_tokens: u32,
}

impl Default for Usage {
    fn default() -> (u: Usage)
        ensures
            u.input_tokens == 0,
            u.output_tokens == 0,
    {
        Usage { input_tokens: 0, output_tokens: 0 }
    }
}

/// Provider-neutral response.
#[derive(Debug, Clone)]
pub struct ChatResponse {
    /// Model output.
    pub text: String,
    /// Token usage, if reported.
    pub usage: Option<Usage>,
    /// Model identifier echoed by the provider.
    pub model: String,
}

/// Operator-facing reasoning effort.
///
/// Unknown values are rejected when configuration is read, so a typo does not
/// become a refused request later. Each provider maps the effort onto its own
/// request field. Leaving the setting out keeps the model's default, while
/// [`ReasoningEffort::Off`] is the wire value `none`, which disables reasoning
/// where the provider allows it.
#[derive(Debug, Clone, Copy, PartialEq, Eq, Structural)]
pub enum ReasoningEffort {
    /// Disable reasoning (`none`).
    Off,
    /// Lowest billed reasoning (`minimal`).
    Minimal,
    /// Low reasoning effort.
    Low,
    /// Medium reasoning effort.
    Medium,
    /// High reasoning effort.
    High,
    /// Extra-high reasoning effort (`xhigh`).
    XHigh,
    /// Maximum reasoning effort (`max`).
    Max,
    /// Codex-advertised `ultra` effort.
    Ultra,
    /// Codex-advertised `persistent` effort.
    Persistent,
}

impl ReasoningEffort {
    /// The effort's wire label.
    pub open spec fn label(self) -> Seq<char> {
        match self {
            ReasoningEffort::Off => "none"@,
            ReasoningEffort::Minimal => "minimal"@,
            ReasoningEffort::Low => "low"@,
            ReasoningEffort::Medium => "medium"@,
            ReasoningEffort::High => "high"@,
            ReasoningEffort::XHigh => "xhigh"@,
            ReasoningEffort::Max => "max"@,
            ReasoningEffort::Ultra => "ultra"@,
            ReasoningEffort::Persistent => "persistent"@,
        }
    }

    /// How much reasoning the effort asks for: the position in the order in which
    /// the efforts are declared.
    pub open spec fn rank(self) -> int {
        match self {
            ReasoningEffort::Off => 0,
            ReasoningEffort::Minimal => 1,
            ReasoningEffort::Low => 2,
            ReasoningEffort::Medium => 3,
            ReasoningEffort::High => 4,
            ReasoningEffort::XHigh => 5,
            ReasoningEffort::Max => 6,
            ReasoningEffort::Ultra => 7,
            ReasoningEffort::Persistent => 8,
        }
    }

    /// Every effort, from the least reasoning to the most.
    pub fn variants() -> (v: Vec<ReasoningEffort>)
        ensures
            v@.len() == 9,
            forall|i: int| 0 <= i < 9 ==> (#[trigger] v@[i]).rank() == i,
    {
        vec![
            ReasoningEffort::Off,
            ReasoningEffort::Minimal,
            ReasoningEffort::Low,
            ReasoningEffort::Medium,
            ReasoningEffort::High,
            ReasoningEffort::XHigh,
            ReasoningEffort::Max,
            ReasoningEffort::Ultra,
            ReasoningEffort::Persistent,
        ]
    }

    /// Canonical wire-format string.
    #[must_use]
    pub fn as_str(self) -> (s: &'static str)
        ensures
            s@ == self.label(),
    {
        match self {
            ReasoningEffort::Off => "none",
            ReasoningEffort::Minimal => "minimal",
            ReasoningEffort::Low => "low",
            ReasoningEffort::Medium => "medium",
            ReasoningEffort::High => "high",
            ReasoningEffort::XHigh => "xhigh",
            ReasoningEffort::Max => "max",
            ReasoningEffort::Ultra => "ultra",
            ReasoningEffort::Persistent => "persistent",
        }
    }

    /// The effort whose label is `s`, exactly as written.
    pub fn from_label(s: &str) -> (r: Option<ReasoningEffort>)
        ensures
            r matches Some(effort) ==> effort.label() == s@,
            r is None ==> forall|effort: ReasoningEffort|
                #![trigger effort.label()]
                effort.label() != s@,
    {
        let all = ReasoningEffort::variants();
        let mut i: usize = 0;
        while i < all.len()
            invariant
                i <= all@.len(),
                forall|j: int| 0 <= j < i ==> (#[trigger] all@[j]).label() != s@,
            decreases all@.len() - i,
        {
            if same_text(all[i].as_str(), s) {
                return Some(all[i]);
            }
            i = i + 1;
        }
        assert forall|effort: ReasoningEffort| #[trigger] effort.label() != s@ by {
            assert(all@[effort.rank()].rank() == effort.rank());
            assert(all@[effort.rank()] == effort);
        }
        None
    }

    /// xAI Grok Chat Completions only accepts `low`/`medium`/`high`/`xhigh` and
    /// cannot disable reasoning. The closest supported value is used.
    #[must_use]
    pub fn grok_chat_effort(self) -> (r: ReasoningEffort)
        ensures
            r == self.grok_effort(),
    {
        match self {
            ReasoningEffort::Off | ReasoningEffort::Minimal => ReasoningEffort::Low,
            ReasoningEffort::Max
            | ReasoningEffort::Ultra
            | ReasoningEffort::Persistent => ReasoningEffort::XHigh,
            other => other,
        }
    }

    /// OpenAI Chat Completions and Responses, and OpenRouter, accept everything
    /// but `ultra` and `persistent`.
    #[must_use]
    pub fn openai_wire_effort(self) -> (r: ReasoningEffort)
        ensures
            r == self.openai_effort(),
    {
        match self {
            ReasoningEffort::Ultra | ReasoningEffort::Persistent => ReasoningEffort::Max,
            other => other,
        }
    }

    /// Anthropic's `output_config.effort` is `low`/`medium`/`high`/`xhigh`/`max`.
    /// `none` is represented by disabling thinking instead.
    #[must_use]
    pub fn anthropic_output_effort(self) -> (r: Option<ReasoningEffort>)
        ensures
            r == self.anthropic_effort(),
    {
        match self {
            ReasoningEffort::Off => None,
            ReasoningEffort::Minimal => Some(ReasoningEffort::Low),
            ReasoningEffort::Ultra | ReasoningEffort::Persistent => Some(ReasoningEffort::Max),
            other => Some(other),
        }
    }

    /// The effort sent to Grok: what it supports is kept, less becomes `low`,
    /// more becomes `xhigh`.
    pub open spec fn grok_effort(self) -> ReasoningEffort {
        if self.rank() < ReasoningEffort::Low.rank() {
            ReasoningEffort::Low
        } else if self.rank() > ReasoningEffort::XHigh.rank() {
            ReasoningEffort::XHigh
        } else {
            self
        }
    }

    /// The effort sent to OpenAI: at most `max`.
    pub open spec fn openai_effort(self) -> ReasoningEffort {
        if self.rank() > ReasoningEffort::Max.rank() {
            ReasoningEffort::Max
        } else {
            self
        }
    }

    /// The effort sent to Anthropic, if any: from `low` to `max`.
    pub open spec fn anthropic_effort(self) -> Option<ReasoningEffort> {
        if self == ReasoningEffort::Off {
            None
        } else if self.rank() < ReasoningEffort::Low.rank() {
            Some(ReasoningEffort::Low)
        } else {
            Some(self.openai_effort())
        }
    }
}

/// A label names one effort, so what is written is what is read back.
pub proof fn law_effort_labels_differ(a: ReasoningEffort, b: ReasoningEffort)
    requires
        a.label() == b.label(),
    ensures
        a == b,
{
    reveal_strlit("none");
    reveal_strlit("minimal");
    reveal_strlit("low");
    reveal_strlit("medium");
    reveal_strlit("high");
    reveal_strlit("xhigh");
    reveal_strlit("max");
    reveal_strlit("ultra");
    reveal_strlit("persistent");
    assert("none"@.len() == 4 && "none"@[0] == 'n');
    assert("minimal"@.len() == 7 && "minimal"@[0] == 'm');
    assert("low"@.len() == 3 && "low"@[0] == 'l');
    assert("medium"@.len() == 6 && "medium"@[0] == 'm');
    assert("high"@.len() == 4 && "high"@[0] == 'h');
    assert("xhigh"@.len() == 5 && "xhigh"@[0] == 'x');
    assert("max"@.len() == 3 && "max"@[0] == 'm');
    assert("ultra"@.len() == 5 && "ultra"@[0] == 'u');
    assert("persistent"@.len() == 10 && "persistent"@[0] == 'p');
}

/// A label names one role, so what is written is what is read back.
pub proof fn law_role_labels_differ(a: Role, b: Role)
    requires
        a.label() == b.label(),
    ensures
        a == b,
{
    reveal_strlit("user");
    reveal_strlit("assistant");
    assert("user"@.len() == 4);
    assert("assistant"@.len() == 9);
}

/// Each provider gets a value that it accepts, a value it accepts is sent as it
/// is, and more reasoning asked for never means less sent.
pub proof fn law_efforts_are_clamped(a: ReasoningEffort, b: ReasoningEffort)
    ensures
        ReasoningEffort::Low.rank() <= a.grok_effort().rank() <= ReasoningEffort::XHigh.rank(),
        a.openai_effort().rank() <= ReasoningEffort::Max.rank(),
        a.anthropic_effort() matches Some(e) ==> ReasoningEffort::Low.rank() <= e.rank()
            <= ReasoningEffort::Max.rank(),
        a.anthropic_effort() is None <==> a == ReasoningEffort::Off,
        a.grok_effort().grok_effort() == a.grok_effort(),
        a.openai_effort().openai_effort() == a.openai_effort(),
        a.anthropic_effort() matches Some(e) ==> e.anthropic_effort() == Some(e),
        a.rank() <= b.rank() ==> a.grok_effort().rank() <= b.grok_effort().rank(),
        a.rank() <= b.rank() ==> a.openai_effort().rank() <= b.openai_effort().rank(),
        a.rank() <= b.rank() ==> (a.anthropic_effort() matches Some(x) ==> (
        b.anthropic_effort() matches Some(y) && x.rank() <= y.rank())),
{
}

/// The label of each role and of each effort, and the efforts from the least to the most,
/// word for word.
pub proof fn law_labels_word_for_word()
    ensures
        Role::User.label() == "user"@,
        Role::Assistant.label() == "assistant"@,
        ReasoningEffort::Off.label() == "none"@ && ReasoningEffort::Off.rank() == 0,
        ReasoningEffort::Minimal.label() == "minimal"@ && ReasoningEffort::Minimal.rank() == 1,
        ReasoningEffort::Low.label() == "low"@ && ReasoningEffort::Low.rank() == 2,
        ReasoningEffort::Medium.label() == "medium"@ && ReasoningEffort::Medium.rank() == 3,
        ReasoningEffort::High.label() == "high"@ && ReasoningEffort::High.rank() == 4,
        ReasoningEffort::XHigh.label() == "xhigh"@ && ReasoningEffort::XHigh.rank() == 5,
        ReasoningEffort::Max.label() == "max"@ && ReasoningEffort::Max.rank() == 6,
        ReasoningEffort::Ultra.label() == "ultra"@ && ReasoningEffort::Ultra.rank() == 7,
        ReasoningEffort::Persistent.label() == "persistent"@
            && ReasoningEffort::Persistent.rank() == 8,
{
}

/// What each provider is sent, effort by effort. Grok is sent `low` for `none` and
/// `minimal`, `xhigh` for `max`, `ultra` and `persistent`; OpenAI is sent `max` for `ultra`
/// and `persistent`; Anthropic is sent nothing for `none`, `low` for `minimal`, and `max`
/// for `ultra` and `persistent`. Everything else is sent as it is.
pub proof fn law_efforts_provider_by_provider(e: ReasoningEffort)
    ensures
        e.grok_effort() == match e {
            ReasoningEffort::Off => ReasoningEffort::Low,
            ReasoningEffort::Minimal => ReasoningEffort::Low,
            ReasoningEffort::Low => ReasoningEffort::Low,
            ReasoningEffort::Medium => ReasoningEffort::Medium,
            ReasoningEffort::High => ReasoningEffort::High,
            ReasoningEffort::XHigh => ReasoningEffort::XHigh,
            ReasoningEffort::Max => ReasoningEffort::XHigh,
            ReasoningEffort::Ultra => ReasoningEffort::XHigh,
            ReasoningEffort::Persistent => ReasoningEffort::XHigh,
        },
        e.openai_effort() == match e {
            ReasoningEffort::Ultra => ReasoningEffort::Max,
            ReasoningEffort::Persistent => ReasoningEffort::Max,
            _ => e,
        },
        e.anthropic_effort() == match e {
            ReasoningEffort::Off => None,
            ReasoningEffort::Minimal => Some(ReasoningEffort::Low),
            ReasoningEffort::Ultra => Some(ReasoningEffort::Max),
            ReasoningEffort::Persistent => Some(ReasoningEffort::Max),
            _ => Some(e),
        },
{
}

} // verus!
