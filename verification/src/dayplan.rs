//! The day-overview assistant's data and its suggestion logic: overdue tasks
//! first, then an imminent meeting, then an important unread message — at
//! most three suggestions.

use vstd::prelude::*;

use crate::imap::EmailHeader;
use crate::textutil::{u32_to_string, spec_u64_digits, spec_i64_digits, i64_to_string};

verus! {

/// A message surfaced as important in the day overview.
#[derive(Clone, Debug)]
pub struct ImportantEmail {
    pub uid: u32,
    pub folder: String,
    pub subject: String,
    pub from: String,
    pub date: String,
    pub is_read: bool,
    pub importance_reason: Option<String>,
}

/// A deadline extracted from a message.
#[derive(Clone, Debug)]
pub struct EmailDeadline {
    pub uid: u32,
    pub subject: String,
    pub date: String,
    pub description: String,
}

/// The mail side of the day overview.
#[derive(Clone, Debug)]
pub struct EmailDaySummary {
    pub unread_count: u32,
    pub important_emails: Vec<ImportantEmail>,
    pub emails_read_today: u32,
    pub emails_with_deadlines: Vec<EmailDeadline>,
}

/// One event in the day overview.
#[derive(Clone, Debug)]
pub struct CalendarEventSummary {
    pub id: String,
    pub calendar_id: String,
    pub summary: String,
    pub location: Option<String>,
    pub start: String,
    pub end: String,
    pub all_day: bool,
    pub is_past: bool,
    pub attendee_count: u32,
}

/// The calendar side of the day overview.
#[derive(Clone, Debug)]
pub struct CalendarDaySummary {
    pub total_events_today: u32,
    pub events_completed: u32,
    pub today_events: Vec<CalendarEventSummary>,
    pub next_event: Option<CalendarEventSummary>,
    pub minutes_until_next: Option<i64>,
}

/// One task in the day overview.
#[derive(Clone, Debug)]
pub struct TaskSummary {
    pub id: String,
    pub calendar_id: String,
    pub summary: String,
    pub due: Option<String>,
    pub priority: Option<u8>,
    pub priority_label: String,
}

/// The task side of the day overview.
#[derive(Clone, Debug)]
pub struct TaskDaySummary {
    pub total_open: u32,
    pub completed_today: u32,
    pub overdue: Vec<TaskSummary>,
    pub due_today: Vec<TaskSummary>,
    pub upcoming: Vec<TaskSummary>,
}

/// Day progress counters.
#[derive(Clone, Debug)]
pub struct DayProgress {
    pub tasks_completed: u32,
    pub tasks_total: u32,
    pub emails_processed: u32,
    pub events_attended: u32,
    pub overall_progress_percent: u32,
}

/// What a suggestion points at.
#[derive(Clone, Debug, PartialEq, Eq, Structural)]
pub enum SuggestionType {
    TaskReminder,
    MeetingPrep,
    EmailAction,
}

/// The action behind a suggestion.
#[derive(Clone, Debug)]
pub struct SuggestedAction {
    pub action_type: String,
    pub target_id: String,
    pub target_type: String,
}

/// One suggestion shown in the day overview.
#[derive(Clone, Debug)]
pub struct AISuggestion {
    pub suggestion_type: SuggestionType,
    pub title: String,
    pub description: String,
    pub action: Option<SuggestedAction>,
}

/// The whole day overview.
#[derive(Clone, Debug)]
pub struct DayState {
    pub generated_at: String,
    pub email_summary: EmailDaySummary,
    pub calendar_summary: CalendarDaySummary,
    pub task_summary: TaskDaySummary,
    pub ai_briefing: Option<String>,
    pub ai_suggestions: Vec<AISuggestion>,
    pub progress: DayProgress,
}

/// Whether a meeting-preparation hint is due: the next event starts within
/// half an hour.
pub open spec fn spec_meeting_hint_due(cal: CalendarDaySummary) -> bool {
    cal.next_event is Some && (match cal.minutes_until_next {
        Some(m) => 0 < m <= 30,
        None => false,
    })
}

/// Builds the day suggestions: an overdue task first, then a meeting starting
/// within half an hour, then the first important message; never more than
/// three, and none when nothing qualifies.
pub fn generate_suggestions(
    email_summary: &EmailDaySummary,
    calendar_summary: &CalendarDaySummary,
    task_summary: &TaskDaySummary,
) -> (r: Vec<AISuggestion>)
    ensures
        r@.len() <= 3,
        r@.len() == (if task_summary.overdue@.len() > 0 {
            1int
        } else {
            0int
        }) + (if spec_meeting_hint_due(*calendar_summary) {
            1int
        } else {
            0int
        }) + (if email_summary.important_emails@.len() > 0 {
            1int
        } else {
            0int
        }),
        forall|i: int|
            0 <= i < r@.len() ==> ((#[trigger] r@[i]).suggestion_type == SuggestionType::TaskReminder
                ==> task_summary.overdue@.len() > 0 && (r@[i].action matches Some(a) && a.target_id@
                == task_summary.overdue@[0].id@)),
        forall|i: int|
            0 <= i < r@.len() ==> ((#[trigger] r@[i]).suggestion_type == SuggestionType::EmailAction
                ==> email_summary.important_emails@.len() > 0 && (r@[i].action matches Some(a)
                && a.target_id@ == spec_u64_digits(
                email_summary.important_emails@[0].uid as int,
            ))),
{
    let mut suggestions: Vec<AISuggestion> = Vec::new();
    if task_summary.overdue.len() > 0 {
        let overdue = &task_summary.overdue[0];
        let mut description = String::new();
        description.append("'");
        description.append(overdue.summary.as_str());
        description.append("' ist \u{fc}berf\u{e4}llig - priorisiere diese Aufgabe.");
        suggestions.push(
            AISuggestion {
                suggestion_type: SuggestionType::TaskReminder,
                title: "\u{dc}berf\u{e4}llige Aufgabe".to_owned(),
                description,
                action: Some(
                    SuggestedAction {
                        action_type: "view_task".to_owned(),
                        target_id: overdue.id.clone(),
                        target_type: "task".to_owned(),
                    },
                ),
            },
        );
    }
    let meeting_due = match (&calendar_summary.next_event, calendar_summary.minutes_until_next) {
        (Some(_), Some(m)) => 0 < m && m <= 30,
        _ => false,
    };
    if meeting_due {
        match (&calendar_summary.next_event, calendar_summary.minutes_until_next) {
            (Some(next), Some(mins)) => {
                let mut description = String::new();
                description.append("'");
                description.append(next.summary.as_str());
                description.append("' beginnt in ");
                let m = i64_to_string(mins);
                description.append(m.as_str());
                description.append(" Minuten.");
                suggestions.push(
                    AISuggestion {
                        suggestion_type: SuggestionType::MeetingPrep,
                        title: "Termin vorbereiten".to_owned(),
                        description,
                        action: Some(
                            SuggestedAction {
                                action_type: "view_calendar".to_owned(),
                                target_id: next.id.clone(),
                                target_type: "event".to_owned(),
                            },
                        ),
                    },
                );
            },
            _ => {},
        }
    }
    if email_summary.important_emails.len() > 0 {
        let email = &email_summary.important_emails[0];
        let mut description = String::new();
        description.append("E-Mail von ");
        description.append(email.from.as_str());
        description.append(" pr\u{fc}fen.");
        suggestions.push(
            AISuggestion {
                suggestion_type: SuggestionType::EmailAction,
                title: "Wichtige E-Mail".to_owned(),
                description,
                action: Some(
                    SuggestedAction {
                        action_type: "open_email".to_owned(),
                        target_id: u32_to_string(email.uid),
                        target_type: "email".to_owned(),
                    },
                ),
            },
        );
    }
    suggestions
}

/// The first `k` unread headers, each as `(uid, subject, from, date)`.
pub open spec fn spec_unread_take(hs: Seq<EmailHeader>, k: int) -> Seq<
    (u32, Seq<char>, Seq<char>, Seq<char>),
>
    decreases hs.len(),
{
    if hs.len() == 0 || k <= 0 {
        Seq::empty()
    } else if !hs[0].is_read {
        seq![(hs[0].uid, hs[0].subject@, hs[0].from@, hs[0].date@)] + spec_unread_take(
            hs.drop_first(),
            k - 1,
        )
    } else {
        spec_unread_take(hs.drop_first(), k)
    }
}

/// Builds the mail side of the day overview from the unread count and the
/// freshest headers: the first five unread become the important list, in
/// order.
pub fn get_email_summary(unread_count: u32, headers: &Vec<EmailHeader>, folder: &str) -> (r:
    EmailDaySummary)
    ensures
        r.unread_count == unread_count,
        r.emails_read_today == 0,
        r.emails_with_deadlines@.len() == 0,
        r.important_emails@.map_values(
            |e: ImportantEmail| (e.uid, e.subject@, e.from@, e.date@),
        ) == spec_unread_take(headers@, 5),
        forall|i: int|
            0 <= i < r.important_emails@.len() ==> !(#[trigger] r.important_emails@[i]).is_read
                && r.important_emails@[i].folder@ == folder@
                && r.important_emails@[i].importance_reason is None,
{
    let mut important: Vec<ImportantEmail> = Vec::new();
    let mut i: usize = 0;
    proof {
        assert(headers@.skip(0) =~= headers@);
        assert(important@.map_values(|e: ImportantEmail| (e.uid, e.subject@, e.from@, e.date@))
            + spec_unread_take(headers@.skip(0), 5) =~= spec_unread_take(headers@, 5));
    }
    while i < headers.len() && important.len() < 5
        invariant
            i <= headers@.len(),
            important@.len() <= 5,
            important@.map_values(|e: ImportantEmail| (e.uid, e.subject@, e.from@, e.date@))
                + spec_unread_take(headers@.skip(i as int), 5 - important@.len())
                == spec_unread_take(headers@, 5),
            forall|k: int|
                0 <= k < important@.len() ==> !(#[trigger] important@[k]).is_read
                    && important@[k].folder@ == folder@ && important@[k].importance_reason is None,
        decreases headers@.len() - i,
    {
        let ghost pre = important@.map_values(
            |e: ImportantEmail| (e.uid, e.subject@, e.from@, e.date@),
        );
        proof {
            assert(headers@.skip(i as int)[0] == headers@[i as int]);
            assert(headers@.skip(i as int).drop_first() =~= headers@.skip(i as int + 1));
        }
        let h = &headers[i];
        if !h.is_read {
            important.push(
                ImportantEmail {
                    uid: h.uid,
                    folder: folder.to_owned(),
                    subject: h.subject.clone(),
                    from: h.from.clone(),
                    date: h.date.clone(),
                    is_read: h.is_read,
                    importance_reason: None,
                },
            );
            proof {
                assert(important@.map_values(
                    |e: ImportantEmail| (e.uid, e.subject@, e.from@, e.date@),
                ) =~= pre.push(
                    (headers@[i as int].uid, headers@[i as int].subject@, headers@[i as int].from@,
                    headers@[i as int].date@),
                ));
                assert(important@.map_values(
                    |e: ImportantEmail| (e.uid, e.subject@, e.from@, e.date@),
                ) + spec_unread_take(headers@.skip(i as int + 1), 5 - important@.len())
                    =~= spec_unread_take(headers@, 5));
            }
        } else {
            proof {
                assert(important@.map_values(
                    |e: ImportantEmail| (e.uid, e.subject@, e.from@, e.date@),
                ) + spec_unread_take(headers@.skip(i as int + 1), 5 - important@.len())
                    =~= spec_unread_take(headers@, 5));
            }
        }
        i = i + 1;
    }
    proof {
        if i >= headers@.len() {
            assert(headers@.skip(i as int) =~= Seq::<EmailHeader>::empty());
            assert(spec_unread_take(headers@.skip(i as int), 5 - important@.len())
                =~= Seq::<(u32, Seq<char>, Seq<char>, Seq<char>)>::empty());
        } else {
            assert(important@.len() == 5);
            assert(spec_unread_take(headers@.skip(i as int), 0)
                =~= Seq::<(u32, Seq<char>, Seq<char>, Seq<char>)>::empty());
        }
        assert(important@.map_values(|e: ImportantEmail| (e.uid, e.subject@, e.from@, e.date@))
            + Seq::<(u32, Seq<char>, Seq<char>, Seq<char>)>::empty() =~= important@.map_values(
            |e: ImportantEmail| (e.uid, e.subject@, e.from@, e.date@),
        ));
    }
    EmailDaySummary {
        unread_count,
        important_emails: important,
        emails_read_today: 0,
        emails_with_deadlines: Vec::new(),
    }
}

} // verus!
