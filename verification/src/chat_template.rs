//! Chat template rendering: OpenAI-style `messages` into the model's
//! prompt string, with the model's embedded Jinja template (rendered by
//! minijinja with the variables of HF's `apply_chat_template`), or ChatML
//! when the model embeds none.
use std::collections::BTreeMap;

use minijinja::Error as JinjaError;
use minijinja::Value;
use vstd::prelude::*;

use crate::error::Error;
use crate::order::string_views;
use crate::text::{push_str, string_from_chars};
use crate::wire::ChatMessage;

verus! {

/// The template used when the model embeds none.
pub const CHATML_FALLBACK: &'static str = "{% for message in messages %}<|im_start|>{{ message.role }}\n{{ message.content }}<|im_end|>\n{% endfor %}{% if add_generation_prompt %}<|im_start|>assistant\n{% endif %}";

#[verifier::external_type_specification]
#[verifier::external_body]
pub struct ExJinjaEnvironment<'a>(minijinja::Environment<'a>);

#[verifier::external_type_specification]
#[verifier::external_body]
pub struct ExJinjaError(JinjaError);

/// The error text minijinja reports when `source` does not compile as a
/// template, or `None` when it compiles.
pub uninterp spec fn jinja_compile_error(source: Seq<char>) -> Option<Seq<char>>;

/// What rendering the compiled `source` gives, with the globals
/// `bos_token` and `eos_token`, the messages (roles and contents, in
/// order) and `add_generation_prompt` set: `(0, text)` when it renders,
/// `(1, error)` when the compiled template cannot be looked up, `(2,
/// error)` when rendering fails.
pub uninterp spec fn jinja_chat(
    source: Seq<char>,
    bos: Seq<char>,
    eos: Seq<char>,
    roles: Seq<Seq<char>>,
    contents: Seq<Seq<char>>,
) -> (u8, Seq<char>);

/// `minijinja::Error::new` with kind `InvalidOperation`: the error a
/// template raises. Nothing is claimed of the (opaque) error.
#[verifier::external_body]
fn invalid_operation(msg: String) -> (e: JinjaError) {
    JinjaError::new(minijinja::ErrorKind::InvalidOperation, msg)
}

/// The `raise_exception(msg)` function HF templates call on unsupported
/// role orders: it always fails the render.
fn raise_exception(msg: String) -> (r: Result<String, JinjaError>)
    ensures
        r is Err,
{
    Err(invalid_operation(msg))
}

/// Builds a minijinja `Environment` with the globals `bos_token` and
/// `eos_token` and the function `raise_exception`, and adds `source` as
/// the template `chat` (`Environment::add_template_owned`), which
/// compiles it. Claimed: it fails exactly when the source does not
/// compile, with the error's text, both named above as functions of the
/// source alone.
#[verifier::external_body]
fn jinja_environment(source: String, bos: String, eos: String) -> (r: Result<
    minijinja::Environment<'static>,
    String,
>)
    ensures
        match r {
            Ok(_) => jinja_compile_error(source@) is None,
            Err(e) => jinja_compile_error(source@) == Some(e@),
        },
{
    let mut env = minijinja::Environment::new();
    env.add_global("bos_token", bos);
    env.add_global("eos_token", eos);
    env.add_function("raise_exception", raise_exception);
    match env.add_template_owned("chat".to_string(), source) {
        Ok(()) => Ok(env),
        Err(e) => Err(e.to_string()),
    }
}

/// A compiled chat template.
pub struct ChatTemplate {
    env: minijinja::Environment<'static>,
    source: String,
    bos: String,
    eos: String,
}

/// Looks the template `chat` up in the environment `new` built from the
/// template's source and tokens (`Environment::get_template`) and renders
/// it (`Template::render`) with the messages as maps of `role` and
/// `content` and `add_generation_prompt` set. Claimed: the outcome is the
/// one named above for those values.
#[verifier::external_body]
fn jinja_render(t: &ChatTemplate, roles: &[String], contents: &[String]) -> (r: (u8, String))
    requires
        roles@.len() == contents@.len(),
    ensures
        (r.0, r.1@) == jinja_chat(t.source@, t.bos@, t.eos@, string_views(roles@), string_views(contents@)),
{
    let tmpl = match t.env.get_template("chat") {
        Ok(x) => x,
        Err(e) => return (1, e.to_string()),
    };
    let mut turns: Vec<Value> = Vec::new();
    for i in 0..roles.len() {
        let turn = BTreeMap::from([("role", roles[i].clone()), ("content", contents[i].clone())]);
        turns.push(Value::from(turn));
    }
    let ctx = BTreeMap::from([("messages", Value::from(turns)), ("add_generation_prompt", Value::from(true))]);
    match tmpl.render(Value::from(ctx)) {
        Ok(s) => (0, s),
        Err(e) => (2, e.to_string()),
    }
}

/// The template source used: the embedded one, else ChatML.
pub open spec fn template_source(template: Option<String>) -> Seq<char> {
    match template {
        Some(t) => t@,
        None => CHATML_FALLBACK@,
    }
}

/// A token's text, empty when the model has none.
pub open spec fn token_text(t: Option<String>) -> Seq<char> {
    match t {
        Some(s) => s@,
        None => Seq::empty(),
    }
}

/// The roles of `messages`, in order.
pub open spec fn message_roles(messages: Seq<ChatMessage>) -> Seq<Seq<char>> {
    messages.map_values(|m: ChatMessage| m.role@)
}

/// The contents of `messages`, in order.
pub open spec fn message_contents(messages: Seq<ChatMessage>) -> Seq<Seq<char>> {
    messages.map_values(|m: ChatMessage| m.content@)
}

fn text_or_empty(t: Option<String>) -> (s: String)
    ensures
        s@ == token_text(t),
{
    match t {
        Some(s) => s,
        None => String::new(),
    }
}

fn prefixed(prefix: &str, text: &str) -> (s: String)
    ensures
        s@ == prefix@ + text@,
{
    let mut v: Vec<char> = Vec::new();
    push_str(&mut v, prefix);
    push_str(&mut v, text);
    string_from_chars(v.as_slice())
}

impl ChatTemplate {
    /// The template source it renders.
    pub closed spec fn source(&self) -> Seq<char> {
        self.source@
    }

    /// Its `bos_token`.
    pub closed spec fn bos(&self) -> Seq<char> {
        self.bos@
    }

    /// Its `eos_token`.
    pub closed spec fn eos(&self) -> Seq<char> {
        self.eos@
    }

    /// Compile the embedded template, or the ChatML fallback if the model
    /// has none; a template that does not compile is a configuration
    /// error.
    pub fn new(template: Option<String>, bos_token: Option<String>, eos_token: Option<String>) -> (r: Result<
        ChatTemplate,
        Error,
    >)
        ensures
            match r {
                Ok(t) => {
                    &&& jinja_compile_error(template_source(template)) is None
                    &&& t.source() == template_source(template)
                    &&& t.bos() == token_text(bos_token)
                    &&& t.eos() == token_text(eos_token)
                },
                Err(e) => jinja_compile_error(template_source(template)) matches Some(m) && e matches Error::Config(
                    c,
                ) && c@ == "chat template: "@ + m,
            },
    {
        let source = match template {
            Some(t) => t,
            None => String::from_str(CHATML_FALLBACK),
        };
        let bos = text_or_empty(bos_token);
        let eos = text_or_empty(eos_token);
        match jinja_environment(source.clone(), bos.clone(), eos.clone()) {
            Ok(env) => Ok(ChatTemplate { env, source, bos, eos }),
            Err(e) => Err(Error::Config(prefixed("chat template: ", e.as_str()))),
        }
    }

    /// Render `messages` into the prompt string, appending the generation
    /// prompt for the assistant turn. A template that fails while
    /// rendering (`raise_exception` among others) rejects the messages.
    pub fn render(&self, messages: &[ChatMessage]) -> (r: Result<String, Error>)
        ensures
            ({
                let (k, text) = jinja_chat(
                    self.source(),
                    self.bos(),
                    self.eos(),
                    message_roles(messages@),
                    message_contents(messages@),
                );
                if k == 0 {
                    r matches Ok(s) && s@ == text
                } else if k == 1 {
                    r matches Err(Error::Internal(m)) && m@ == "chat template: "@ + text
                } else {
                    r matches Err(Error::InvalidArgument(m)) && m@ == "chat template render: "@ + text
                }
            }),
    {
        let mut roles: Vec<String> = Vec::new();
        let mut contents: Vec<String> = Vec::new();
        let mut i: usize = 0;
        while i < messages.len()
            invariant
                i <= messages@.len(),
                roles@.len() == i,
                contents@.len() == i,
                string_views(roles@) == message_roles(messages@.take(i as int)),
                string_views(contents@) == message_contents(messages@.take(i as int)),
            decreases messages@.len() - i,
        {
            let ghost r0 = roles@;
            let ghost c0 = contents@;
            roles.push(messages[i].role.clone());
            contents.push(messages[i].content.clone());
            assert(string_views(roles@) =~= string_views(r0).push(messages@[i as int].role@));
            assert(string_views(contents@) =~= string_views(c0).push(messages@[i as int].content@));
            assert(message_roles(messages@.take(i + 1)) =~= message_roles(messages@.take(i as int)).push(
                messages@[i as int].role@,
            ));
            assert(message_contents(messages@.take(i + 1)) =~= message_contents(messages@.take(i as int)).push(
                messages@[i as int].content@,
            ));
            i = i + 1;
        }
        assert(messages@.take(messages@.len() as int) =~= messages@);
        let (k, text) = jinja_render(self, roles.as_slice(), contents.as_slice());
        if k == 0 {
            Ok(text)
        } else if k == 1 {
            Err(Error::Internal(prefixed("chat template: ", text.as_str())))
        } else {
            Err(Error::InvalidArgument(prefixed("chat template render: ", text.as_str())))
        }
    }
}

} // verus!
