//! Mail-assistant support logic: category definitions, response scanning, and
//! the chat-prompt serializations for the supported local model families.

use vstd::prelude::*;

use crate::textutil::{str_eq, str_to_chars, chars_to_string, spec_extract_json, find_char, rfind_char};

verus! {

/// A mail category as stored in the cache and shown in the UI.
#[derive(Clone, Debug)]
pub struct EmailCategory {
    pub id: String,
    pub name: String,
    pub color: String,
    pub icon: Option<String>,
    pub is_system: bool,
    pub sort_order: i32,
}

pub open spec fn spec_category_is(
    c: EmailCategory,
    id: Seq<char>,
    name: Seq<char>,
    color: Seq<char>,
    icon: Seq<char>,
    sort_order: i32,
) -> bool {
    &&& c.id@ == id
    &&& c.name@ == name
    &&& c.color@ == color
    &&& c.icon matches Some(v) && v@ == icon
    &&& c.is_system
    &&& c.sort_order == sort_order
}

pub open spec fn spec_default_categories(cs: Seq<EmailCategory>) -> bool {
    &&& cs.len() == 8
    &&& spec_category_is(cs[0], "work"@, "Arbeit"@, "#3B82F6"@, "briefcase"@, 1)
    &&& spec_category_is(cs[1], "personal"@, "Pers\u{f6}nlich"@, "#10B981"@, "user"@, 2)
    &&& spec_category_is(cs[2], "newsletter"@, "Newsletter"@, "#8B5CF6"@, "newspaper"@, 3)
    &&& spec_category_is(cs[3], "promotions"@, "Werbung"@, "#F59E0B"@, "tag"@, 4)
    &&& spec_category_is(cs[4], "social"@, "Sozial"@, "#EC4899"@, "users"@, 5)
    &&& spec_category_is(cs[5], "updates"@, "Updates"@, "#6366F1"@, "bell"@, 6)
    &&& spec_category_is(cs[6], "finance"@, "Finanzen"@, "#059669"@, "currency-euro"@, 7)
    &&& spec_category_is(cs[7], "travel"@, "Reisen"@, "#0EA5E9"@, "plane"@, 8)
}

fn make_category(id: &str, name: &str, color: &str, icon: &str, sort_order: i32) -> (c:
    EmailCategory)
    ensures
        spec_category_is(c, id@, name@, color@, icon@, sort_order),
{
    EmailCategory {
        id: id.to_owned(),
        name: name.to_owned(),
        color: color.to_owned(),
        icon: Some(icon.to_owned()),
        is_system: true,
        sort_order,
    }
}

/// The fixed set of system categories seeded into every fresh cache.
pub fn get_default_categories() -> (r: Vec<EmailCategory>)
    ensures
        spec_default_categories(r@),
{
    let mut r: Vec<EmailCategory> = Vec::new();
    r.push(make_category("work", "Arbeit", "#3B82F6", "briefcase", 1));
    r.push(make_category("personal", "Pers\u{f6}nlich", "#10B981", "user", 2));
    r.push(make_category("newsletter", "Newsletter", "#8B5CF6", "newspaper", 3));
    r.push(make_category("promotions", "Werbung", "#F59E0B", "tag", 4));
    r.push(make_category("social", "Sozial", "#EC4899", "users", 5));
    r.push(make_category("updates", "Updates", "#6366F1", "bell", 6));
    r.push(make_category("finance", "Finanzen", "#059669", "currency-euro", 7));
    r.push(make_category("travel", "Reisen", "#0EA5E9", "plane", 8));
    r
}

/// Extracts the JSON object embedded in a model response: the slice from the
/// first `{` through the last `}`. Malformed input comes back unchanged.
pub fn extract_json(text: &str) -> (r: String)
    ensures
        r@ == spec_extract_json(text@),
{
    let chars = str_to_chars(text);
    let start = find_char(&chars, '{');
    let end = rfind_char(&chars, '}');
    match (start, end) {
        (Some(i), Some(j)) => {
            if i < j {
                let mut out: Vec<char> = Vec::new();
                let mut k: usize = i;
                while k <= j
                    invariant
                        i <= k <= j + 1,
                        j < chars.len(),
                        out@ == chars@.subrange(i as int, k as int),
                    decreases j + 1 - k,
                {
                    out.push(chars[k]);
                    proof {
                        assert(chars@.subrange(i as int, k as int + 1) =~= chars@.subrange(
                            i as int,
                            k as int,
                        ).push(chars@[k as int]));
                    }
                    k = k + 1;
                }
                chars_to_string(&out)
            } else {
                text.to_owned()
            }
        },
        _ => text.to_owned(),
    }
}

/// One turn of a model conversation.
#[derive(Clone, Debug)]
pub struct AIMessage {
    pub role: String,
    pub content: String,
}

/// The selectable completion backends.
#[derive(Clone, Debug, PartialEq, Eq, Structural)]
pub enum AIProviderType {
    Local,
    Ollama,
    OpenAI,
    Anthropic,
    CustomOpenAI,
    Disabled,
}

/// The bundled local model families.
#[derive(Clone, Copy, Debug, PartialEq, Eq, Structural)]
pub enum LocalModel {
    SmolLM135M,
    Qwen2_0_5B,
    TinyLlama1_1B,
    Phi3Mini,
}

impl LocalModel {
    /// The label shown in the model picker.
    pub fn display_name(&self) -> (r: &'static str)
        ensures
            *self == LocalModel::SmolLM135M ==> r@ == "SmolLM 135M (80MB) - Schnell"@,
            *self == LocalModel::Qwen2_0_5B ==> r@ == "Qwen2 0.5B (350MB) - Ausgewogen"@,
            *self == LocalModel::TinyLlama1_1B ==> r@ == "TinyLlama 1.1B (600MB) - Empfohlen"@,
            *self == LocalModel::Phi3Mini ==> r@ == "Phi-3 Mini (2GB) - Beste Qualit\u{e4}t"@,
    {
        match self {
            LocalModel::SmolLM135M => "SmolLM 135M (80MB) - Schnell",
            LocalModel::Qwen2_0_5B => "Qwen2 0.5B (350MB) - Ausgewogen",
            LocalModel::TinyLlama1_1B => "TinyLlama 1.1B (600MB) - Empfohlen",
            LocalModel::Phi3Mini => "Phi-3 Mini (2GB) - Beste Qualit\u{e4}t",
        }
    }

    /// Approximate download size in megabytes.
    pub fn file_size_mb(&self) -> (r: u64)
        ensures
            r == self.spec_file_size_mb(),
    {
        match self {
            LocalModel::SmolLM135M => 80,
            LocalModel::Qwen2_0_5B => 350,
            LocalModel::TinyLlama1_1B => 600,
            LocalModel::Phi3Mini => 2000,
        }
    }

    pub open spec fn spec_file_size_mb(&self) -> u64 {
        match self {
            LocalModel::SmolLM135M => 80,
            LocalModel::Qwen2_0_5B => 350,
            LocalModel::TinyLlama1_1B => 600,
            LocalModel::Phi3Mini => 2000,
        }
    }

    /// Where the GGUF file is published.
    pub fn download_url(&self) -> (r: &'static str)
        ensures
            *self == LocalModel::SmolLM135M ==> r@
                == "https://huggingface.co/HuggingFaceTB/SmolLM-135M-Instruct-GGUF/resolve/main/smollm-135m-instruct-q8_0.gguf"@,
            *self == LocalModel::Qwen2_0_5B ==> r@
                == "https://huggingface.co/Qwen/Qwen2-0.5B-Instruct-GGUF/resolve/main/qwen2-0_5b-instruct-q4_k_m.gguf"@,
            *self == LocalModel::TinyLlama1_1B ==> r@
                == "https://huggingface.co/TheBloke/TinyLlama-1.1B-Chat-v1.0-GGUF/resolve/main/tinyllama-1.1b-chat-v1.0.Q4_K_M.gguf"@,
            *self == LocalModel::Phi3Mini ==> r@
                == "https://huggingface.co/microsoft/Phi-3-mini-4k-instruct-gguf/resolve/main/Phi-3-mini-4k-instruct-q4.gguf"@,
    {
        match self {
            LocalModel::SmolLM135M => "https://huggingface.co/HuggingFaceTB/SmolLM-135M-Instruct-GGUF/resolve/main/smollm-135m-instruct-q8_0.gguf",
            LocalModel::Qwen2_0_5B => "https://huggingface.co/Qwen/Qwen2-0.5B-Instruct-GGUF/resolve/main/qwen2-0_5b-instruct-q4_k_m.gguf",
            LocalModel::TinyLlama1_1B => "https://huggingface.co/TheBloke/TinyLlama-1.1B-Chat-v1.0-GGUF/resolve/main/tinyllama-1.1b-chat-v1.0.Q4_K_M.gguf",
            LocalModel::Phi3Mini => "https://huggingface.co/microsoft/Phi-3-mini-4k-instruct-gguf/resolve/main/Phi-3-mini-4k-instruct-q4.gguf",
        }
    }

    /// The on-disk file name of the model.
    pub fn filename(&self) -> (r: &'static str)
        ensures
            *self == LocalModel::SmolLM135M ==> r@ == "smollm-135m-instruct-q8_0.gguf"@,
            *self == LocalModel::Qwen2_0_5B ==> r@ == "qwen2-0_5b-instruct-q4_k_m.gguf"@,
            *self == LocalModel::TinyLlama1_1B ==> r@ == "tinyllama-1.1b-chat-v1.0.Q4_K_M.gguf"@,
            *self == LocalModel::Phi3Mini ==> r@ == "Phi-3-mini-4k-instruct-q4.gguf"@,
    {
        match self {
            LocalModel::SmolLM135M => "smollm-135m-instruct-q8_0.gguf",
            LocalModel::Qwen2_0_5B => "qwen2-0_5b-instruct-q4_k_m.gguf",
            LocalModel::TinyLlama1_1B => "tinyllama-1.1b-chat-v1.0.Q4_K_M.gguf",
            LocalModel::Phi3Mini => "Phi-3-mini-4k-instruct-q4.gguf",
        }
    }
}

/// The model named by a UI id; both the snake_case and the compact historical
/// spellings are accepted, and any other id names nothing.
pub open spec fn spec_parse_local_model(id: Seq<char>) -> Option<LocalModel> {
    if id == "smollm135m"@ || id == "smol_l_m135_m"@ {
        Some(LocalModel::SmolLM135M)
    } else if id == "qwen2_0_5b"@ || id == "qwen20_5b"@ {
        Some(LocalModel::Qwen2_0_5B)
    } else if id == "tinyllama1_1b"@ || id == "tiny_llama1_1b"@ {
        Some(LocalModel::TinyLlama1_1B)
    } else if id == "phi3mini"@ || id == "phi3_mini"@ {
        Some(LocalModel::Phi3Mini)
    } else {
        None
    }
}

/// Resolves a model id from the UI; an unknown id is an error.
pub fn parse_local_model(model_id: &str) -> (r: Result<LocalModel, String>)
    ensures
        match r {
            Ok(m) => spec_parse_local_model(model_id@) == Some(m),
            Err(_) => spec_parse_local_model(model_id@) is None,
        },
{
    if str_eq(model_id, "smollm135m") || str_eq(model_id, "smol_l_m135_m") {
        Ok(LocalModel::SmolLM135M)
    } else if str_eq(model_id, "qwen2_0_5b") || str_eq(model_id, "qwen20_5b") {
        Ok(LocalModel::Qwen2_0_5B)
    } else if str_eq(model_id, "tinyllama1_1b") || str_eq(model_id, "tiny_llama1_1b") {
        Ok(LocalModel::TinyLlama1_1B)
    } else if str_eq(model_id, "phi3mini") || str_eq(model_id, "phi3_mini") {
        Ok(LocalModel::Phi3Mini)
    } else {
        let mut msg = String::new();
        msg.append("Unknown model: ");
        msg.append(model_id);
        Err(msg)
    }
}

/// The file path of a model inside the given models directory.
pub fn get_model_path(models_dir: &str, model: &LocalModel) -> (r: String)
    ensures
        r@ == models_dir@ + "/"@ + (match model {
            LocalModel::SmolLM135M => "smollm-135m-instruct-q8_0.gguf"@,
            LocalModel::Qwen2_0_5B => "qwen2-0_5b-instruct-q4_k_m.gguf"@,
            LocalModel::TinyLlama1_1B => "tinyllama-1.1b-chat-v1.0.Q4_K_M.gguf"@,
            LocalModel::Phi3Mini => "Phi-3-mini-4k-instruct-q4.gguf"@,
        }),
{
    let mut out = String::new();
    out.append(models_dir);
    out.append("/");
    out.append(model.filename());
    out
}

pub open spec fn spec_chat_part(
    role: Seq<char>,
    content: Seq<char>,
    sys_open: Seq<char>,
    usr_open: Seq<char>,
    asst_open: Seq<char>,
    close: Seq<char>,
) -> Seq<char> {
    if role == "system"@ {
        sys_open + content + close
    } else if role == "user"@ {
        usr_open + content + close
    } else if role == "assistant"@ {
        asst_open + content + close
    } else {
        Seq::empty()
    }
}

pub open spec fn spec_chat_prompt(
    msgs: Seq<AIMessage>,
    sys_open: Seq<char>,
    usr_open: Seq<char>,
    asst_open: Seq<char>,
    close: Seq<char>,
    tail: Seq<char>,
) -> Seq<char>
    decreases msgs.len(),
{
    if msgs.len() == 0 {
        tail
    } else {
        spec_chat_part(msgs[0].role@, msgs[0].content@, sys_open, usr_open, asst_open, close)
            + spec_chat_prompt(msgs.drop_first(), sys_open, usr_open, asst_open, close, tail)
    }
}

fn chat_prompt(
    messages: &Vec<AIMessage>,
    sys_open: &str,
    usr_open: &str,
    asst_open: &str,
    close: &str,
    tail: &str,
) -> (r: String)
    ensures
        r@ == spec_chat_prompt(messages@, sys_open@, usr_open@, asst_open@, close@, tail@),
{
    let ghost msgs = messages@;
    let mut out = String::new();
    let mut i: usize = 0;
    proof {
        assert(msgs.skip(0) =~= msgs);
        assert(out@ + spec_chat_prompt(msgs, sys_open@, usr_open@, asst_open@, close@, tail@)
            =~= spec_chat_prompt(msgs, sys_open@, usr_open@, asst_open@, close@, tail@));
    }
    while i < messages.len()
        invariant
            i <= msgs.len(),
            msgs == messages@,
            out@ + spec_chat_prompt(msgs.skip(i as int), sys_open@, usr_open@, asst_open@, close@,
                tail@,
            ) == spec_chat_prompt(msgs, sys_open@, usr_open@, asst_open@, close@, tail@),
        decreases msgs.len() - i,
    {
        let m = &messages[i];
        let ghost old_out = out@;
        let ghost part = spec_chat_part(
            m.role@,
            m.content@,
            sys_open@,
            usr_open@,
            asst_open@,
            close@,
        );
        proof {
            assert(msgs.skip(i as int)[0] == msgs[i as int]);
            assert(msgs.skip(i as int).drop_first() =~= msgs.skip(i as int + 1));
        }
        if str_eq(m.role.as_str(), "system") {
            out.append(sys_open);
            out.append(m.content.as_str());
            out.append(close);
        } else if str_eq(m.role.as_str(), "user") {
            out.append(usr_open);
            out.append(m.content.as_str());
            out.append(close);
        } else if str_eq(m.role.as_str(), "assistant") {
            out.append(asst_open);
            out.append(m.content.as_str());
            out.append(close);
        }
        proof {
            assert(out@ =~= old_out + part);
            assert(spec_chat_prompt(msgs.skip(i as int), sys_open@, usr_open@, asst_open@, close@,
                tail@,
            ) == part + spec_chat_prompt(msgs.skip(i as int + 1), sys_open@, usr_open@, asst_open@,
                close@, tail@));
            assert(out@ + spec_chat_prompt(msgs.skip(i as int + 1), sys_open@, usr_open@,
                asst_open@, close@, tail@) =~= old_out + spec_chat_prompt(msgs.skip(i as int),
                sys_open@, usr_open@, asst_open@, close@, tail@));
        }
        i = i + 1;
    }
    proof {
        assert(msgs.skip(i as int) =~= Seq::<AIMessage>::empty());
    }
    out.append(tail);
    out
}

/// The TinyLlama chat serialization of a conversation.
pub fn format_tinyllama(messages: &Vec<AIMessage>) -> (r: String)
    ensures
        r@ == spec_chat_prompt(
            messages@,
            "<|system|>\n"@,
            "<|user|>\n"@,
            "<|assistant|>\n"@,
            "</s>\n"@,
            "<|assistant|>\n"@,
        ),
{
    chat_prompt(messages, "<|system|>\n", "<|user|>\n", "<|assistant|>\n", "</s>\n",
        "<|assistant|>\n")
}

/// The Phi-3 chat serialization of a conversation.
pub fn format_phi3(messages: &Vec<AIMessage>) -> (r: String)
    ensures
        r@ == spec_chat_prompt(
            messages@,
            "<|system|>\n"@,
            "<|user|>\n"@,
            "<|assistant|>\n"@,
            "<|end|>\n"@,
            "<|assistant|>\n"@,
        ),
{
    chat_prompt(messages, "<|system|>\n", "<|user|>\n", "<|assistant|>\n", "<|end|>\n",
        "<|assistant|>\n")
}

/// The ChatML serialization of a conversation (Qwen2, SmolLM).
pub fn format_chatml(messages: &Vec<AIMessage>) -> (r: String)
    ensures
        r@ == spec_chat_prompt(
            messages@,
            "<|im_start|>system\n"@,
            "<|im_start|>user\n"@,
            "<|im_start|>assistant\n"@,
            "<|im_end|>\n"@,
            "<|im_start|>assistant\n"@,
        ),
{
    chat_prompt(messages, "<|im_start|>system\n", "<|im_start|>user\n", "<|im_start|>assistant\n",
        "<|im_end|>\n", "<|im_start|>assistant\n")
}

/// Chooses the prompt serialization that matches the model family.
pub fn format_messages_for_model(model_type: &LocalModel, messages: &Vec<AIMessage>) -> (r: String)
    ensures
        *model_type == LocalModel::TinyLlama1_1B ==> r@ == spec_chat_prompt(
            messages@,
            "<|system|>\n"@,
            "<|user|>\n"@,
            "<|assistant|>\n"@,
            "</s>\n"@,
            "<|assistant|>\n"@,
        ),
        *model_type == LocalModel::Phi3Mini ==> r@ == spec_chat_prompt(
            messages@,
            "<|system|>\n"@,
            "<|user|>\n"@,
            "<|assistant|>\n"@,
            "<|end|>\n"@,
            "<|assistant|>\n"@,
        ),
        (*model_type == LocalModel::Qwen2_0_5B || *model_type == LocalModel::SmolLM135M) ==> r@
            == spec_chat_prompt(
            messages@,
            "<|im_start|>system\n"@,
            "<|im_start|>user\n"@,
            "<|im_start|>assistant\n"@,
            "<|im_end|>\n"@,
            "<|im_start|>assistant\n"@,
        ),
{
    match model_type {
        LocalModel::TinyLlama1_1B => format_tinyllama(messages),
        LocalModel::Phi3Mini => format_phi3(messages),
        LocalModel::Qwen2_0_5B => format_chatml(messages),
        LocalModel::SmolLM135M => format_chatml(messages),
    }
}

/// The OpenAI model catalogue: `(model id, label)` pairs, best first.
pub fn openai_models() -> (r: Vec<(&'static str, &'static str)>)
    ensures
        r@.len() == 4,
        r@[0].0@ == "gpt-4o"@,
        r@[1].0@ == "gpt-4o-mini"@,
        r@[2].0@ == "gpt-4-turbo"@,
        r@[3].0@ == "gpt-3.5-turbo"@,
{
    let mut r: Vec<(&'static str, &'static str)> = Vec::new();
    r.push(("gpt-4o", "GPT-4o (Beste Qualit\u{e4}t)"));
    r.push(("gpt-4o-mini", "GPT-4o Mini (Schnell & g\u{fc}nstig)"));
    r.push(("gpt-4-turbo", "GPT-4 Turbo"));
    r.push(("gpt-3.5-turbo", "GPT-3.5 Turbo (G\u{fc}nstig)"));
    r
}

/// Maps a VTODO priority (1 high .. 9 low) to its coarse label.
pub fn priority_to_label(priority: Option<u8>) -> (r: String)
    ensures
        (match priority {
            Some(p) => if 1 <= p <= 3 {
                r@ == "high"@
            } else if 4 <= p <= 6 {
                r@ == "medium"@
            } else if 7 <= p <= 9 {
                r@ == "low"@
            } else {
                r@ == "medium"@
            },
            None => r@ == "medium"@,
        }),
{
    match priority {
        Some(p) => {
            if 1 <= p && p <= 3 {
                "high".to_owned()
            } else if 4 <= p && p <= 6 {
                "medium".to_owned()
            } else if 7 <= p && p <= 9 {
                "low".to_owned()
            } else {
                "medium".to_owned()
            }
        },
        None => "medium".to_owned(),
    }
}


/// The assistant's settings across all providers.
#[derive(Clone, Debug)]
pub struct AIConfig {
    pub provider_type: AIProviderType,
    pub local_model: LocalModel,
    pub local_model_downloaded: bool,
    pub ollama_url: String,
    pub ollama_model: String,
    pub openai_api_key: String,
    pub openai_model: String,
    pub anthropic_api_key: String,
    pub anthropic_model: String,
    pub custom_api_url: String,
    pub custom_api_key: String,
    pub custom_model: String,
    pub auto_summarize: bool,
    pub auto_extract_deadlines: bool,
    pub auto_prioritize: bool,
    pub suggest_tasks: bool,
    pub suggest_calendar: bool,
}

impl Default for AIConfig {
    /// The assistant starts disabled, with the stock endpoints and models
    /// filled in where a stock choice exists and every automatic feature
    /// switched on.
    fn default() -> (r: AIConfig)
        ensures
            r.provider_type == AIProviderType::Disabled,
            r.local_model == LocalModel::TinyLlama1_1B,
            !r.local_model_downloaded,
            r.ollama_url@ == "http://localhost:11434"@,
            r.ollama_model@ == "llama3.2:latest"@,
            r.openai_api_key@ == Seq::<char>::empty(),
            r.openai_model@ == "gpt-4o-mini"@,
            r.anthropic_api_key@ == Seq::<char>::empty(),
            r.anthropic_model@ == Seq::<char>::empty(),
            r.custom_api_url@ == Seq::<char>::empty(),
            r.custom_api_key@ == Seq::<char>::empty(),
            r.custom_model@ == Seq::<char>::empty(),
            r.auto_summarize && r.auto_extract_deadlines && r.auto_prioritize && r.suggest_tasks
                && r.suggest_calendar,
    {
        AIConfig {
            provider_type: AIProviderType::Disabled,
            local_model: LocalModel::TinyLlama1_1B,
            local_model_downloaded: false,
            ollama_url: "http://localhost:11434".to_owned(),
            ollama_model: "llama3.2:latest".to_owned(),
            openai_api_key: String::new(),
            openai_model: "gpt-4o-mini".to_owned(),
            anthropic_api_key: String::new(),
            anthropic_model: String::new(),
            custom_api_url: String::new(),
            custom_api_key: String::new(),
            custom_model: String::new(),
            auto_summarize: true,
            auto_extract_deadlines: true,
            auto_prioritize: true,
            suggest_tasks: true,
            suggest_calendar: true,
        }
    }
}

/// The analysis produced for one message.
#[derive(Clone, Debug)]
pub struct EmailAnalysis {
    pub summary: Option<String>,
    pub importance_score: u8,
    pub importance_reason: Option<String>,
    pub deadlines: Vec<ExtractedDeadline>,
    pub action_items: Vec<String>,
    pub suggested_task: Option<SuggestedTask>,
    pub suggested_event: Option<SuggestedEvent>,
    pub sentiment: Option<String>,
    pub entities: Vec<String>,
}

/// A deadline found in a message.
#[derive(Clone, Debug)]
pub struct ExtractedDeadline {
    pub date: String,
    pub description: String,
    pub is_urgent: bool,
}

/// A task proposed from a message.
#[derive(Clone, Debug)]
pub struct SuggestedTask {
    pub title: String,
    pub description: Option<String>,
    pub due_date: Option<String>,
    pub priority: String,
}

/// A calendar event proposed from a message.
#[derive(Clone, Debug)]
pub struct SuggestedEvent {
    pub title: String,
    pub description: Option<String>,
    pub start_time: Option<String>,
    pub end_time: Option<String>,
    pub location: Option<String>,
}

/// The tool catalogue handed to the chat assistant.
pub fn get_tools_description() -> (r: &'static str)
    ensures
        r@ == "Du hast Zugriff auf folgende Tools um mit E-Mails zu interagieren:\n\n## Verf\u{fc}gbare Tools\n\n### search_emails\nSuche E-Mails nach Kriterien.\nArgumente:\n- query: Suchbegriff (Betreff, Absender oder Inhalt)\n- folder: Optional, Ordner zum Suchen (Standard: INBOX)\n- limit: Optional, maximale Anzahl (Standard: 10)\n\nBeispiel: {\"name\": \"search_emails\", \"arguments\": {\"query\": \"Mail Delivery System\", \"limit\": 5}}\n\n### get_email\nLese eine spezifische E-Mail.\nArgumente:\n- uid: E-Mail UID\n- folder: Ordner der E-Mail\n\nBeispiel: {\"name\": \"get_email\", \"arguments\": {\"uid\": 123, \"folder\": \"INBOX\"}}\n\n### mark_as_read\nMarkiere E-Mails als gelesen.\nArgumente:\n- uids: Liste von E-Mail UIDs\n- folder: Ordner der E-Mails\n\nBeispiel: {\"name\": \"mark_as_read\", \"arguments\": {\"uids\": [123, 124, 125], \"folder\": \"INBOX\"}}\n\n### mark_as_unread\nMarkiere E-Mails als ungelesen.\nArgumente:\n- uids: Liste von E-Mail UIDs\n- folder: Ordner der E-Mails\n\nBeispiel: {\"name\": \"mark_as_unread\", \"arguments\": {\"uids\": [123], \"folder\": \"INBOX\"}}\n\n### move_emails\nVerschiebe E-Mails in einen anderen Ordner.\nArgumente:\n- uids: Liste von E-Mail UIDs\n- from_folder: Quell-Ordner\n- to_folder: Ziel-Ordner\n\nBeispiel: {\"name\": \"move_emails\", \"arguments\": {\"uids\": [123], \"from_folder\": \"INBOX\", \"to_folder\": \"Archive\"}}\n\n### delete_emails\nL\u{f6}sche E-Mails (verschiebt in Papierkorb).\nArgumente:\n- uids: Liste von E-Mail UIDs\n- folder: Ordner der E-Mails\n\nBeispiel: {\"name\": \"delete_emails\", \"arguments\": {\"uids\": [123, 124], \"folder\": \"INBOX\"}}\n\n### list_folders\nListe alle verf\u{fc}gbaren Ordner.\nKeine Argumente.\n\nBeispiel: {\"name\": \"list_folders\", \"arguments\": {}}\n\n### count_unread\nZ\u{e4}hle ungelesene E-Mails.\nArgumente:\n- folder: Optional, spezifischer Ordner (sonst alle)\n\nBeispiel: {\"name\": \"count_unread\", \"arguments\": {\"folder\": \"INBOX\"}}\n\n## Wichtige Regeln:\n1. Wenn du ein Tool verwenden m\u{f6}chtest, antworte NUR mit dem JSON-Objekt, nichts anderes.\n2. Warte auf das Ergebnis bevor du antwortest.\n3. Bei kritischen Aktionen (l\u{f6}schen, verschieben) frage IMMER zuerst nach Best\u{e4}tigung.\n4. Beschreibe dem Benutzer was du tust.\n"@,
{
    "Du hast Zugriff auf folgende Tools um mit E-Mails zu interagieren:\n\n## Verf\u{fc}gbare Tools\n\n### search_emails\nSuche E-Mails nach Kriterien.\nArgumente:\n- query: Suchbegriff (Betreff, Absender oder Inhalt)\n- folder: Optional, Ordner zum Suchen (Standard: INBOX)\n- limit: Optional, maximale Anzahl (Standard: 10)\n\nBeispiel: {\"name\": \"search_emails\", \"arguments\": {\"query\": \"Mail Delivery System\", \"limit\": 5}}\n\n### get_email\nLese eine spezifische E-Mail.\nArgumente:\n- uid: E-Mail UID\n- folder: Ordner der E-Mail\n\nBeispiel: {\"name\": \"get_email\", \"arguments\": {\"uid\": 123, \"folder\": \"INBOX\"}}\n\n### mark_as_read\nMarkiere E-Mails als gelesen.\nArgumente:\n- uids: Liste von E-Mail UIDs\n- folder: Ordner der E-Mails\n\nBeispiel: {\"name\": \"mark_as_read\", \"arguments\": {\"uids\": [123, 124, 125], \"folder\": \"INBOX\"}}\n\n### mark_as_unread\nMarkiere E-Mails als ungelesen.\nArgumente:\n- uids: Liste von E-Mail UIDs\n- folder: Ordner der E-Mails\n\nBeispiel: {\"name\": \"mark_as_unread\", \"arguments\": {\"uids\": [123], \"folder\": \"INBOX\"}}\n\n### move_emails\nVerschiebe E-Mails in einen anderen Ordner.\nArgumente:\n- uids: Liste von E-Mail UIDs\n- from_folder: Quell-Ordner\n- to_folder: Ziel-Ordner\n\nBeispiel: {\"name\": \"move_emails\", \"arguments\": {\"uids\": [123], \"from_folder\": \"INBOX\", \"to_folder\": \"Archive\"}}\n\n### delete_emails\nL\u{f6}sche E-Mails (verschiebt in Papierkorb).\nArgumente:\n- uids: Liste von E-Mail UIDs\n- folder: Ordner der E-Mails\n\nBeispiel: {\"name\": \"delete_emails\", \"arguments\": {\"uids\": [123, 124], \"folder\": \"INBOX\"}}\n\n### list_folders\nListe alle verf\u{fc}gbaren Ordner.\nKeine Argumente.\n\nBeispiel: {\"name\": \"list_folders\", \"arguments\": {}}\n\n### count_unread\nZ\u{e4}hle ungelesene E-Mails.\nArgumente:\n- folder: Optional, spezifischer Ordner (sonst alle)\n\nBeispiel: {\"name\": \"count_unread\", \"arguments\": {\"folder\": \"INBOX\"}}\n\n## Wichtige Regeln:\n1. Wenn du ein Tool verwenden m\u{f6}chtest, antworte NUR mit dem JSON-Objekt, nichts anderes.\n2. Warte auf das Ergebnis bevor du antwortest.\n3. Bei kritischen Aktionen (l\u{f6}schen, verschieben) frage IMMER zuerst nach Best\u{e4}tigung.\n4. Beschreibe dem Benutzer was du tust.\n"
}


} // verus!
