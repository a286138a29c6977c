//! Talking to an OpenAI-compatible chat API: the endpoint to call, the key to
//! send, and what the reply means.
use vstd::prelude::*;
use crate::text::{
    chars_of, decimal, decimal_exec, ends_with, extend_chars, extend_str, slice_chars, string_of,
    trim, trim_end_char, trim_end_char_exec, trim_exec, has_suffix,
};

verus! {

/// The message when no API address is given.
pub const NO_API_URL: &'static str = "Не указан URL API.";

/// The chat endpoint of an API root: the root trimmed, without trailing
/// slashes, with `/chat/completions` added unless it already ends with it.
pub open spec fn endpoint_spec(base_url: Seq<char>) -> Seq<char> {
    let root = trim_end_char(trim(base_url), '/');
    if has_suffix(root, "/chat/completions"@) {
        root
    } else {
        root + "/chat/completions"@
    }
}

/// The chat endpoint for an API root; an error when the root is blank.
pub fn llm_endpoint(base_url: &str) -> (r: Result<String, String>)
    ensures
        trim_end_char(trim(base_url@), '/').len() == 0 <==> r is Err,
        r matches Err(e) ==> e@ == NO_API_URL@,
        r matches Ok(u) ==> u@ == endpoint_spec(base_url@),
{
    let mut url = trim_end_char_exec(&trim_exec(&chars_of(base_url)), '/');
    if url.len() == 0 {
        return Err(NO_API_URL.to_string());
    }
    let suffix = chars_of("/chat/completions");
    if !ends_with(&url, &suffix) {
        extend_chars(&mut url, &suffix);
    }
    Ok(string_of(&url))
}

/// The bearer key to send: the trimmed key, or none when it is blank (local
/// endpoints without authorization).
pub fn llm_bearer(api_key: &str) -> (r: Option<String>)
    ensures
        trim(api_key@).len() == 0 <==> r is None,
        r matches Some(k) ==> k@ == trim(api_key@),
{
    let k = trim_exec(&chars_of(api_key));
    if k.len() == 0 {
        None
    } else {
        Some(string_of(&k))
    }
}

/// What the logic reads of a parsed reply: whether it has an `error` member
/// (and that member's string `message`, if any), and the string at
/// `choices[0].message.content`, if any.
pub struct LlmReply {
    pub has_error: bool,
    pub error_message: Option<String>,
    pub content: Option<String>,
}

/// At most the first 300 characters of a reply body.
pub open spec fn preview(text: Seq<char>) -> Seq<char> {
    if text.len() <= 300 {
        text
    } else {
        text.take(300)
    }
}

/// The outcome of a chat request, from the HTTP status, the reply body and the
/// reply as parsed (none when the body is no JSON).
pub open spec fn answer_spec(status: u16, text: Seq<char>, reply: Option<LlmReply>) -> Result<Seq<char>, Seq<char>> {
    match reply {
        None => Err("Некорректный ответ API (HTTP "@ + decimal(status as nat) + "): "@ + preview(text)),
        Some(r) => if r.has_error {
            Err("API: "@ + match r.error_message {
                Some(m) => m@,
                None => "неизвестная ошибка API"@,
            })
        } else {
            match r.content {
                Some(c) => Ok(c@),
                None => Err("Ответ без choices[0].message.content (HTTP "@ + decimal(status as nat) + ")"@),
            }
        },
    }
}

pub open spec fn result_view(r: Result<String, String>) -> Result<Seq<char>, Seq<char>> {
    match r {
        Ok(s) => Ok(s@),
        Err(e) => Err(e@),
    }
}

/// What a chat request answers: the reply's content, or an error for a body
/// that is no JSON (with a preview of it), for an API error, or for a reply
/// without content.
pub fn llm_answer(status: u16, text: &str, reply: &Option<LlmReply>) -> (r: Result<String, String>)
    ensures
        result_view(r) == answer_spec(status, text@, *reply),
{
    match reply {
        None => {
            let body = chars_of(text);
            let cut: usize = if body.len() <= 300 { body.len() } else { 300 };
            let mut msg = chars_of("Некорректный ответ API (HTTP ");
            extend_chars(&mut msg, &decimal_exec(status as u64));
            extend_str(&mut msg, "): ");
            extend_chars(&mut msg, &slice_chars(&body, 0, cut));
            proof {
                if body.len() <= 300 {
                    assert(body@.subrange(0, cut as int) =~= body@);
                } else {
                    assert(body@.subrange(0, cut as int) =~= body@.take(300));
                }
            }
            Err(string_of(&msg))
        },
        Some(rep) => {
            if rep.has_error {
                let mut msg = chars_of("API: ");
                match &rep.error_message {
                    Some(m) => extend_str(&mut msg, m.as_str()),
                    None => extend_str(&mut msg, "неизвестная ошибка API"),
                }
                Err(string_of(&msg))
            } else {
                match &rep.content {
                    Some(c) => Ok(c.clone()),
                    None => {
                        let mut msg = chars_of("Ответ без choices[0].message.content (HTTP ");
                        extend_chars(&mut msg, &decimal_exec(status as u64));
                        extend_str(&mut msg, ")");
                        Err(string_of(&msg))
                    },
                }
            }
        },
    }
}

} // verus!
