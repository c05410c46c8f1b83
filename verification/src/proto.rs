//! Call-content prompt assembly for a session: the call's own persona and contact context, then
//! the standard call-protocol layer (voice gender, closing and language directives).
use serde_json::Value;
use vstd::prelude::*;
use vstd::string::StringExecFns;

use crate::config::{Gender, ServerConfig};
use crate::json::{compact, contents, to_compact};
use crate::text::{begins, lemma_occurs, occurs};

verus! {

/// Standard call-closing directive, so that the model closes deterministically through the tool
/// and says goodbye once.
pub const CLOSING_INSTRUCTION: &'static str = "\n\n# Ending the call\n\
    When the conversation is finished — you have said your goodbyes, agreed on a \
    next step, or the other party firmly refuses or is rude — say ONE short, \
    natural goodbye and, in the SAME turn, call the `end_call` tool. Say the \
    goodbye only once: the line is played in full and then the call is hung up, \
    so never add a second goodbye and do not keep talking after it.";

/// Self-reference in a female voice.
pub const FEMALE_INSTRUCTION: &'static str = "\n\n# Your voice\nYou speak with a FEMALE voice. \
    Always refer to yourself using feminine grammatical forms — verbs, adjectives, participles (in \
    Russian: «я поняла», «была рада», «сама», «готова»). Never use masculine self-reference.";

/// Self-reference in a male voice.
pub const MALE_INSTRUCTION: &'static str = "\n\n# Your voice\nYou speak with a MALE voice. \
    Always refer to yourself using masculine grammatical forms — verbs, adjectives, participles (in \
    Russian: «я понял», «был рад», «сам», «готов»). Never use feminine self-reference.";

/// Grammatical-gender directive matched to the voice.
pub open spec fn gender_text(gender: Gender) -> Seq<char> {
    match gender {
        Gender::Female => FEMALE_INSTRUCTION@,
        Gender::Male => MALE_INSTRUCTION@,
        Gender::Neutral => ""@,
    }
}

/// Grammatical-gender directive matched to the voice; a neutral one adds nothing.
pub fn gender_instruction(gender: Gender) -> (r: &'static str)
    ensures
        r@ == gender_text(gender),
{
    match gender {
        Gender::Female => FEMALE_INSTRUCTION,
        Gender::Male => MALE_INSTRUCTION,
        Gender::Neutral => "",
    }
}

/// The directive that pins the spoken language.
pub open spec fn language_text(language: Seq<char>) -> Seq<char> {
    LANGUAGE_HEAD@ + language + LANGUAGE_MIDDLE@ + language + LANGUAGE_TAIL@
}

pub const LANGUAGE_HEAD: &'static str = "\n\n# Language\nSpeak ONLY in the language with BCP-47 \
    code `";

pub const LANGUAGE_MIDDLE: &'static str = "`, always — from the very first word and in every \
    single reply. You may understand the other party when they use another language, but you MUST \
    always answer in `";

pub const LANGUAGE_TAIL: &'static str = "`, pronouncing it cleanly and naturally like a native \
    speaker, with no foreign accent.";

/// Pin the spoken language, given as a BCP-47 tag. Essential for a model that ignores the
/// structured language code and would otherwise pick a language on its own.
pub fn language_instruction(language: &str) -> (r: String)
    ensures
        r@ == language_text(language@),
{
    let mut s: String = LANGUAGE_HEAD.to_owned();
    s.append(language);
    s.append(LANGUAGE_MIDDLE);
    s.append(language);
    s.append(LANGUAGE_TAIL);
    s
}

/// The persona, contact context if there is any, and the call-protocol layer.
pub open spec fn prompt_text(
    system_prompt: Seq<char>,
    context: Option<&Value>,
    gender: Gender,
) -> Seq<char> {
    system_prompt + (match context {
        Some(ctx) => "\n\n# Contact context\n"@ + compact(contents(*ctx)),
        None => Seq::empty(),
    }) + gender_text(gender) + CLOSING_INSTRUCTION@
}

/// Assemble the per-call layer: persona and optional contact context, followed by the voice-gender
/// and closing directives.
pub fn build_system_prompt(system_prompt: &str, context: Option<&Value>, gender: Gender) -> (r:
    String)
    ensures
        r@ == prompt_text(system_prompt@, context, gender),
{
    let mut s: String = system_prompt.to_owned();
    match context {
        Some(ctx) => {
            s.append("\n\n# Contact context\n");
            s.append(to_compact(ctx).as_str());
            assert(s@ =~= system_prompt@ + ("\n\n# Contact context\n"@ + compact(
                contents(*ctx),
            )));
        },
        None => {
            assert(s@ =~= system_prompt@ + Seq::<char>::empty());
        },
    }
    s.append(gender_instruction(gender));
    s.append(CLOSING_INSTRUCTION);
    s
}

/// Build the full system instruction for a session: the per-call layer, then the language
/// directive pinned from the server's language.
pub fn assemble_system_instruction(
    server: &ServerConfig,
    system_prompt: &str,
    context: Option<&Value>,
) -> (r: String)
    ensures
        r@ == prompt_text(system_prompt@, context, server.voice_gender) + language_text(
            server.language@,
        ),
{
    let mut s: String = build_system_prompt(system_prompt, context, server.voice_gender);
    s.append(language_instruction(server.language.as_str()).as_str());
    s
}

/// The per-call layer begins with the persona and ends with the closing directive; between them are
/// the contact context, where there is one, and the voice's directive, and nothing else.
pub proof fn prompt_holds_every_part(
    system_prompt: Seq<char>,
    context: Option<&Value>,
    gender: Gender,
)
    ensures
        ({
            let t = prompt_text(system_prompt, context, gender);
            let close = CLOSING_INSTRUCTION@;
            let about = match context {
                Some(ctx) => "\n\n# Contact context\n"@ + compact(contents(*ctx)),
                None => Seq::<char>::empty(),
            };
            let voice = match gender {
                Gender::Female => FEMALE_INSTRUCTION@,
                Gender::Male => MALE_INSTRUCTION@,
                Gender::Neutral => ""@,
            };
            &&& begins(t, system_prompt + about)
            &&& occurs(t, about + voice)
            &&& t.subrange(t.len() - close.len(), t.len() as int) == close
            &&& t.len() == system_prompt.len() + about.len() + voice.len() + close.len()
        }),
{
    let t = prompt_text(system_prompt, context, gender);
    let close = CLOSING_INSTRUCTION@;
    let about = match context {
        Some(ctx) => "\n\n# Contact context\n"@ + compact(contents(*ctx)),
        None => Seq::<char>::empty(),
    };
    let voice = gender_text(gender);
    assert(t.subrange(0, (system_prompt + about).len() as int) =~= system_prompt + about);
    assert(t =~= system_prompt + (about + voice) + close);
    lemma_occurs(t, system_prompt, about + voice, close);
    assert(t.subrange(t.len() - close.len(), t.len() as int) =~= close);
}

/// The language directive names the language twice: to speak in, and to answer in.
pub proof fn language_is_named_twice(language: Seq<char>)
    ensures
        begins(language_text(language), LANGUAGE_HEAD@ + language),
        occurs(language_text(language), LANGUAGE_MIDDLE@ + language + LANGUAGE_TAIL@),
        language_text(language).len() == LANGUAGE_HEAD@.len() + LANGUAGE_MIDDLE@.len()
            + LANGUAGE_TAIL@.len() + 2 * language.len(),
{
    let t = language_text(language);
    let a = LANGUAGE_HEAD@ + language;
    let b = LANGUAGE_MIDDLE@ + language + LANGUAGE_TAIL@;
    assert(t.subrange(0, a.len() as int) =~= a);
    assert(t =~= a + b + Seq::<char>::empty());
    lemma_occurs(t, a, b, Seq::empty());
}

} // verus!
