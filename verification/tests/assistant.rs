use mailclient::ai::{
    format_chatml, format_messages_for_model, format_phi3, format_tinyllama,
    get_default_categories, get_model_path, get_tools_description, openai_models,
    parse_local_model, priority_to_label, AIConfig, AIMessage, LocalModel,
};
use mailclient::dayplan::{
    generate_suggestions, get_email_summary, CalendarDaySummary, EmailDaySummary, SuggestionType,
    TaskDaySummary, TaskSummary,
};
use mailclient::imap::EmailHeader;

#[test]
fn default_categories_content() {
    let cats = get_default_categories();
    assert_eq!(cats.len(), 8);
    assert_eq!(cats[0].id, "work");
    assert_eq!(cats[0].name, "Arbeit");
    assert_eq!(cats[2].id, "newsletter");
    assert_eq!(cats[7].sort_order, 8);
    assert!(cats.iter().all(|c| c.is_system));
}

#[test]
fn model_catalogues() {
    assert_eq!(openai_models().len(), 4);
    assert_eq!(openai_models()[0].0, "gpt-4o");
}

#[test]
fn local_model_metadata() {
    let m = LocalModel::TinyLlama1_1B;
    assert_eq!(m.filename(), "tinyllama-1.1b-chat-v1.0.Q4_K_M.gguf");
    assert_eq!(m.file_size_mb(), 600);
    assert!(m.download_url().starts_with("https://huggingface.co/"));
    assert!(m.display_name().contains("TinyLlama"));
    assert_eq!(
        get_model_path("/models", &m),
        "/models/tinyllama-1.1b-chat-v1.0.Q4_K_M.gguf"
    );
}

#[test]
fn model_id_parsing() {
    assert_eq!(parse_local_model("tinyllama1_1b"), Ok(LocalModel::TinyLlama1_1B));
    assert_eq!(parse_local_model("phi3_mini"), Ok(LocalModel::Phi3Mini));
    assert!(parse_local_model("nonsense").is_err());
}

#[test]
fn prompt_serializations() {
    let messages = vec![
        AIMessage {
            role: "system".to_string(),
            content: "S".to_string(),
        },
        AIMessage {
            role: "user".to_string(),
            content: "U".to_string(),
        },
    ];
    assert_eq!(
        format_tinyllama(&messages),
        "<|system|>\nS</s>\n<|user|>\nU</s>\n<|assistant|>\n"
    );
    assert_eq!(
        format_phi3(&messages),
        "<|system|>\nS<|end|>\n<|user|>\nU<|end|>\n<|assistant|>\n"
    );
    assert_eq!(
        format_chatml(&messages),
        "<|im_start|>system\nS<|im_end|>\n<|im_start|>user\nU<|im_end|>\n<|im_start|>assistant\n"
    );
    assert_eq!(
        format_messages_for_model(&LocalModel::Qwen2_0_5B, &messages),
        format_chatml(&messages)
    );
}

#[test]
fn priority_labels() {
    assert_eq!(priority_to_label(Some(1)), "high");
    assert_eq!(priority_to_label(Some(5)), "medium");
    assert_eq!(priority_to_label(Some(9)), "low");
    assert_eq!(priority_to_label(Some(0)), "medium");
    assert_eq!(priority_to_label(None), "medium");
}

#[test]
fn ai_defaults() {
    let config = AIConfig::default();
    assert_eq!(config.ollama_url, "http://localhost:11434");
    assert_eq!(config.anthropic_model, "");
    assert!(config.auto_summarize);
    assert!(get_tools_description().contains("search_emails"));
}

fn empty_email_summary() -> EmailDaySummary {
    EmailDaySummary {
        unread_count: 0,
        important_emails: Vec::new(),
        emails_read_today: 0,
        emails_with_deadlines: Vec::new(),
    }
}

fn empty_calendar_summary() -> CalendarDaySummary {
    CalendarDaySummary {
        total_events_today: 0,
        events_completed: 0,
        today_events: Vec::new(),
        next_event: None,
        minutes_until_next: None,
    }
}

fn empty_task_summary() -> TaskDaySummary {
    TaskDaySummary {
        total_open: 0,
        completed_today: 0,
        overdue: Vec::new(),
        due_today: Vec::new(),
        upcoming: Vec::new(),
    }
}

#[test]
fn suggestions_for_quiet_day_are_empty() {
    let r = generate_suggestions(
        &empty_email_summary(),
        &empty_calendar_summary(),
        &empty_task_summary(),
    );
    assert!(r.is_empty());
}

#[test]
fn overdue_task_is_suggested_first() {
    let mut tasks = empty_task_summary();
    tasks.overdue.push(TaskSummary {
        id: "t1".to_string(),
        calendar_id: "c".to_string(),
        summary: "Steuer".to_string(),
        due: None,
        priority: Some(1),
        priority_label: "high".to_string(),
    });
    let r = generate_suggestions(&empty_email_summary(), &empty_calendar_summary(), &tasks);
    assert_eq!(r.len(), 1);
    assert_eq!(r[0].suggestion_type, SuggestionType::TaskReminder);
    assert_eq!(r[0].action.as_ref().unwrap().target_id, "t1");
}

#[test]
fn email_summary_picks_first_five_unread() {
    let mut headers = Vec::new();
    for uid in 0..10u32 {
        headers.push(EmailHeader {
            uid,
            subject: format!("s{}", uid),
            from: "f".to_string(),
            to: "t".to_string(),
            date: "d".to_string(),
            is_read: uid % 2 == 0,
            is_flagged: false,
            is_answered: false,
            is_draft: false,
            flags: Vec::new(),
            has_attachments: false,
        });
    }
    let summary = get_email_summary(5, &headers, "INBOX");
    assert_eq!(summary.unread_count, 5);
    assert_eq!(summary.important_emails.len(), 5);
    assert!(summary.important_emails.iter().all(|e| !e.is_read));
    assert_eq!(summary.important_emails[0].uid, 1);
}
