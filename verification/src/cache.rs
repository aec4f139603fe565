//! The local message cache: per-account rows for headers, bodies, attachment
//! metadata, per-folder sync watermarks, and category assignments.
//!
//! The model here is the cache's observable state; the hosting process
//! persists it. Clock readings (`now`) and parsed date timestamps enter as
//! arguments, since the library itself performs no I/O.

use vstd::prelude::*;

use crate::ai::{EmailCategory, get_default_categories, spec_default_categories};
use crate::imap::{Attachment, Email, EmailHeader};
use crate::textutil::{str_eq, str_to_chars, contains_seq, spec_contains_seq, spec_lower_seq};

verus! {

/// One row of the email table.
#[derive(Clone, Debug)]
pub struct CachedEmail {
    pub folder: String,
    pub uid: u32,
    pub subject: String,
    pub from: String,
    pub to: String,
    pub cc: String,
    pub date: String,
    pub date_timestamp: i64,
    pub is_read: bool,
    pub has_attachments: bool,
    pub body_text: String,
    pub body_html: String,
    pub cached_at: i64,
}

/// One row of the attachment table; `data` stays empty until fetched.
#[derive(Clone, Debug)]
pub struct CachedAttachment {
    pub folder: String,
    pub email_uid: u32,
    pub filename: String,
    pub mime_type: String,
    pub size: usize,
    pub data: Option<Vec<u8>>,
}

/// The per-folder synchronization watermark.
#[derive(Clone, Debug)]
pub struct SyncState {
    pub folder: String,
    pub last_sync: i64,
    pub highest_uid: u32,
}

/// A category assigned to one message. Confidence is kept in hundredths
/// (85 means 0.85).
#[derive(Clone, Debug)]
pub struct CategoryAssignment {
    pub folder: String,
    pub uid: u32,
    pub category_id: String,
    pub confidence_hundredths: u32,
    pub is_user_override: bool,
    pub categorized_at: i64,
}

/// One spam-scan verdict for a message. Confidence is kept in hundredths.
#[derive(Clone, Debug)]
pub struct SpamScan {
    pub folder: String,
    pub uid: u32,
    pub is_spam: bool,
    pub confidence_hundredths: u32,
    pub reason: String,
    pub scanned_ts: i64,
}

/// The per-folder spam-scan watermark.
#[derive(Clone, Debug)]
pub struct SpamScanState {
    pub folder: String,
    pub highest_scanned_uid: u32,
}

/// Cache totals reported to the UI.
#[derive(Clone, Debug)]
pub struct CacheStats {
    pub email_count: u32,
    pub attachment_count: u32,
    pub total_size_bytes: u64,
    pub oldest_email: Option<String>,
    pub newest_email: Option<String>,
}

/// An account's cache retention settings; `days == 0` means unbounded.
#[derive(Clone, Debug)]
pub struct CacheSettings {
    pub enabled: bool,
    pub days: u32,
    pub cache_body: bool,
    pub cache_attachments: bool,
}

pub open spec fn spec_email_key_is(e: CachedEmail, folder: Seq<char>, uid: u32) -> bool {
    e.folder@ == folder && e.uid == uid
}

pub open spec fn spec_att_key_is(a: CachedAttachment, folder: Seq<char>, uid: u32) -> bool {
    a.folder@ == folder && a.email_uid == uid
}

pub open spec fn spec_asg_key_is(c: CategoryAssignment, folder: Seq<char>, uid: u32) -> bool {
    c.folder@ == folder && c.uid == uid
}

/// First email row with the given key.
pub open spec fn spec_find_email(rows: Seq<CachedEmail>, folder: Seq<char>, uid: u32) -> Option<
    CachedEmail,
>
    decreases rows.len(),
{
    if rows.len() == 0 {
        None
    } else if spec_email_key_is(rows[0], folder, uid) {
        Some(rows[0])
    } else {
        spec_find_email(rows.drop_first(), folder, uid)
    }
}

/// First watermark row for the given folder.
pub open spec fn spec_find_sync(rows: Seq<SyncState>, folder: Seq<char>) -> Option<SyncState>
    decreases rows.len(),
{
    if rows.len() == 0 {
        None
    } else if rows[0].folder@ == folder {
        Some(rows[0])
    } else {
        spec_find_sync(rows.drop_first(), folder)
    }
}

/// First assignment row with the given key.
pub open spec fn spec_find_asg(rows: Seq<CategoryAssignment>, folder: Seq<char>, uid: u32)
    -> Option<CategoryAssignment>
    decreases rows.len(),
{
    if rows.len() == 0 {
        None
    } else if spec_asg_key_is(rows[0], folder, uid) {
        Some(rows[0])
    } else {
        spec_find_asg(rows.drop_first(), folder, uid)
    }
}

/// The email rows left after removing one key.
pub open spec fn spec_emails_without(rows: Seq<CachedEmail>, folder: Seq<char>, uid: u32) -> Seq<
    CachedEmail,
> {
    rows.filter(|e: CachedEmail| !spec_email_key_is(e, folder, uid))
}

/// The attachment rows left after removing one email's key.
pub open spec fn spec_atts_without(
    rows: Seq<CachedAttachment>,
    folder: Seq<char>,
    uid: u32,
) -> Seq<CachedAttachment> {
    rows.filter(|a: CachedAttachment| !spec_att_key_is(a, folder, uid))
}

/// The assignment rows left after removing one email's key.
pub open spec fn spec_asgs_without(
    rows: Seq<CategoryAssignment>,
    folder: Seq<char>,
    uid: u32,
) -> Seq<CategoryAssignment> {
    rows.filter(|c: CategoryAssignment| !spec_asg_key_is(c, folder, uid))
}

pub open spec fn spec_spam_key_is(x: SpamScan, folder: Seq<char>, uid: u32) -> bool {
    x.folder@ == folder && x.uid == uid
}

/// First spam verdict with the given key.
pub open spec fn spec_find_spam(rows: Seq<SpamScan>, folder: Seq<char>, uid: u32) -> Option<
    SpamScan,
>
    decreases rows.len(),
{
    if rows.len() == 0 {
        None
    } else if spec_spam_key_is(rows[0], folder, uid) {
        Some(rows[0])
    } else {
        spec_find_spam(rows.drop_first(), folder, uid)
    }
}

/// The spam verdicts left after removing one key.
pub open spec fn spec_spams_without(rows: Seq<SpamScan>, folder: Seq<char>, uid: u32) -> Seq<
    SpamScan,
> {
    rows.filter(|x: SpamScan| !spec_spam_key_is(x, folder, uid))
}

/// The spam verdicts whose message is still cached.
pub open spec fn spec_spams_referencing(rows: Seq<SpamScan>, emails: Seq<CachedEmail>) -> Seq<
    SpamScan,
> {
    rows.filter(|x: SpamScan| spec_find_email(emails, x.folder@, x.uid) is Some)
}

/// First spam watermark for the given folder.
pub open spec fn spec_find_spam_state(rows: Seq<SpamScanState>, folder: Seq<char>) -> Option<
    SpamScanState,
>
    decreases rows.len(),
{
    if rows.len() == 0 {
        None
    } else if rows[0].folder@ == folder {
        Some(rows[0])
    } else {
        spec_find_spam_state(rows.drop_first(), folder)
    }
}

/// The spam watermarks left after removing one folder.
pub open spec fn spec_spam_states_without(rows: Seq<SpamScanState>, folder: Seq<char>) -> Seq<
    SpamScanState,
> {
    rows.filter(|x: SpamScanState| x.folder@ != folder)
}

/// The watermark rows left after removing one folder.
pub open spec fn spec_syncs_without(rows: Seq<SyncState>, folder: Seq<char>) -> Seq<SyncState> {
    rows.filter(|s: SyncState| s.folder@ != folder)
}

/// Referential integrity (the delete-cascade invariant): every attachment
/// row, category assignment and spam verdict points at a live email row.
pub open spec fn spec_cache_wf(c: EmailCache) -> bool {
    &&& forall|i: int|
        0 <= i < c.attachments@.len() ==> spec_find_email(
            c.emails@,
            (#[trigger] c.attachments@[i]).folder@,
            c.attachments@[i].email_uid,
        ) is Some
    &&& forall|i: int|
        0 <= i < c.assignments@.len() ==> spec_find_email(
            c.emails@,
            (#[trigger] c.assignments@[i]).folder@,
            c.assignments@[i].uid,
        ) is Some
    &&& forall|i: int|
        0 <= i < c.spam_scans@.len() ==> spec_find_email(
            c.emails@,
            (#[trigger] c.spam_scans@[i]).folder@,
            c.spam_scans@[i].uid,
        ) is Some
}

/// The in-memory cache state.
pub struct EmailCache {
    pub emails: Vec<CachedEmail>,
    pub attachments: Vec<CachedAttachment>,
    pub sync_states: Vec<SyncState>,
    pub categories: Vec<EmailCategory>,
    pub assignments: Vec<CategoryAssignment>,
    pub spam_scans: Vec<SpamScan>,
    pub spam_states: Vec<SpamScanState>,
}

/// Replaces `@`, `/`, `\` and `:` so an account id can name a cache file.
pub open spec fn spec_sanitize_char(c: char) -> Seq<char> {
    if c == '@' {
        "_at_"@
    } else if c == '/' || c == '\\' || c == ':' {
        "_"@
    } else {
        seq![c]
    }
}

pub open spec fn spec_sanitize(s: Seq<char>) -> Seq<char>
    decreases s.len(),
{
    if s.len() == 0 {
        Seq::empty()
    } else {
        spec_sanitize(s.drop_last()) + spec_sanitize_char(s.last())
    }
}

/// Makes an account id safe for use as a file name.
pub fn sanitize_account_id(account_id: &str) -> (r: String)
    ensures
        r@ == spec_sanitize(account_id@),
{
    let chars = crate::textutil::str_to_chars(account_id);
    let mut out: Vec<char> = Vec::new();
    let mut i: usize = 0;
    proof {
        assert(chars@.take(0) =~= Seq::<char>::empty());
        assert(out@ =~= spec_sanitize(chars@.take(0)));
    }
    while i < chars.len()
        invariant
            i <= chars@.len(),
            out@ == spec_sanitize(chars@.take(i as int)),
        decreases chars@.len() - i,
    {
        let c = chars[i];
        let ghost prev = out@;
        if c == '@' {
            out.push('_');
            out.push('a');
            out.push('t');
            out.push('_');
            proof {
                reveal_strlit("_at_");
                assert(out@ =~= prev + "_at_"@);
            }
        } else if c == '/' || c == '\\' || c == ':' {
            out.push('_');
            proof {
                reveal_strlit("_");
                assert(out@ =~= prev + "_"@);
            }
        } else {
            out.push(c);
            proof {
                assert(out@ =~= prev + seq![c]);
            }
        }
        proof {
            assert(chars@.take(i as int + 1).drop_last() =~= chars@.take(i as int));
            assert(chars@.take(i as int + 1).last() == c);
        }
        i = i + 1;
    }
    proof {
        assert(chars@.take(i as int) =~= chars@);
    }
    crate::textutil::chars_to_string(&out)
}

impl EmailCache {
    /// A fresh cache with the default categories seeded and no rows.
    pub fn new() -> (r: EmailCache)
        ensures
            r.emails@.len() == 0,
            r.attachments@.len() == 0,
            r.sync_states@.len() == 0,
            r.assignments@.len() == 0,
            r.spam_scans@.len() == 0,
            r.spam_states@.len() == 0,
            spec_default_categories(r.categories@),
            spec_cache_wf(r),
    {
        EmailCache {
            emails: Vec::new(),
            attachments: Vec::new(),
            sync_states: Vec::new(),
            categories: get_default_categories(),
            assignments: Vec::new(),
            spam_scans: Vec::new(),
            spam_states: Vec::new(),
        }
    }

    /// Index of the first email row with this key.
    fn find_email_idx(&self, folder: &str, uid: u32) -> (r: Option<usize>)
        ensures
            match r {
                Some(i) => i < self.emails@.len() && spec_find_email(self.emails@, folder@, uid)
                    == Some(self.emails@[i as int]),
                None => spec_find_email(self.emails@, folder@, uid) is None,
            },
    {
        let mut i: usize = 0;
        while i < self.emails.len()
            invariant
                i <= self.emails@.len(),
                forall|k: int|
                    0 <= k < i ==> !spec_email_key_is(#[trigger] self.emails@[k], folder@, uid),
            decreases self.emails@.len() - i,
        {
            let e = &self.emails[i];
            if str_eq(e.folder.as_str(), folder) && e.uid == uid {
                proof {
                    lemma_find_email_hit(self.emails@, folder@, uid, i as int);
                }
                return Some(i);
            }
            i = i + 1;
        }
        proof {
            lemma_find_email_miss(self.emails@, folder@, uid);
        }
        None
    }

    /// Whether a header row exists for this key.
    pub fn has_email(&self, folder: &str, uid: u32) -> (r: bool)
        ensures
            r == (spec_find_email(self.emails@, folder@, uid) is Some),
    {
        self.find_email_idx(folder, uid).is_some()
    }

    /// Removes every email row with the key; attachments and the category
    /// assignment cascade (the delete-cascade invariant).
    pub fn delete_email(&mut self, folder: &str, uid: u32)
        ensures
            final(self).emails@ == spec_emails_without(old(self).emails@, folder@, uid),
            final(self).attachments@ == spec_atts_without(old(self).attachments@, folder@, uid),
            final(self).assignments@ == spec_asgs_without(old(self).assignments@, folder@, uid),
            final(self).spam_scans@ == spec_spams_without(old(self).spam_scans@, folder@, uid),
            final(self).sync_states@ == old(self).sync_states@,
            final(self).categories@ == old(self).categories@,
            final(self).spam_states@ == old(self).spam_states@,
            spec_cache_wf(*old(self)) ==> spec_cache_wf(*final(self)),
    {
        let ghost orig_e = self.emails@;
        let mut i: usize = 0;
        let ghost mut gj: int = 0;
        proof {
            assert(orig_e.take(0) =~= Seq::<CachedEmail>::empty());
            reveal(Seq::filter);
            assert(self.emails@ =~= spec_emails_without(orig_e.take(gj), folder@, uid)
                + orig_e.skip(gj));
        }
        while i < self.emails.len()
            invariant
                0 <= gj <= orig_e.len(),
                i == spec_emails_without(orig_e.take(gj), folder@, uid).len(),
                self.emails@ == spec_emails_without(orig_e.take(gj), folder@, uid) + orig_e.skip(
                    gj,
                ),
                self.attachments@ == old(self).attachments@,
                self.assignments@ == old(self).assignments@,
                self.sync_states@ == old(self).sync_states@,
                self.categories@ == old(self).categories@,
                self.spam_scans@ == old(self).spam_scans@,
                self.spam_states@ == old(self).spam_states@,
                orig_e == old(self).emails@,
            decreases self.emails@.len() - i,
        {
            let ghost w = spec_emails_without(orig_e.take(gj), folder@, uid);
            proof {
                assert(self.emails@.len() == w.len() + orig_e.skip(gj).len());
                assert(gj < orig_e.len());
                assert(self.emails@[i as int] == orig_e.skip(gj)[0]);
                assert(orig_e.skip(gj)[0] == orig_e[gj]);
                assert(orig_e.take(gj + 1).drop_last() =~= orig_e.take(gj));
                assert(orig_e.take(gj + 1).last() == orig_e[gj]);
                reveal(Seq::filter);
            }
            let e = &self.emails[i];
            if str_eq(e.folder.as_str(), folder) && e.uid == uid {
                self.emails.remove(i);
                proof {
                    assert(self.emails@ =~= w + orig_e.skip(gj + 1));
                }
            } else {
                proof {
                    assert(spec_emails_without(orig_e.take(gj + 1), folder@, uid) =~= w.push(
                        orig_e[gj],
                    ));
                    assert(self.emails@ =~= spec_emails_without(orig_e.take(gj + 1), folder@, uid)
                        + orig_e.skip(gj + 1));
                }
                i = i + 1;
            }
            proof {
                gj = gj + 1;
            }
        }
        proof {
            assert(orig_e.skip(gj) =~= Seq::<CachedEmail>::empty());
            assert(gj == orig_e.len());
            assert(orig_e.take(gj) =~= orig_e);
            assert(self.emails@ =~= spec_emails_without(orig_e, folder@, uid));
        }

        let ghost orig_a = self.attachments@;
        let mut ia: usize = 0;
        let ghost mut ga: int = 0;
        proof {
            assert(orig_a.take(0) =~= Seq::<CachedAttachment>::empty());
            reveal(Seq::filter);
            assert(self.attachments@ =~= spec_atts_without(orig_a.take(ga), folder@, uid)
                + orig_a.skip(ga));
        }
        while ia < self.attachments.len()
            invariant
                0 <= ga <= orig_a.len(),
                ia == spec_atts_without(orig_a.take(ga), folder@, uid).len(),
                self.attachments@ == spec_atts_without(orig_a.take(ga), folder@, uid)
                    + orig_a.skip(ga),
                self.emails@ == spec_emails_without(old(self).emails@, folder@, uid),
                self.assignments@ == old(self).assignments@,
                self.sync_states@ == old(self).sync_states@,
                self.categories@ == old(self).categories@,
                self.spam_scans@ == old(self).spam_scans@,
                self.spam_states@ == old(self).spam_states@,
                orig_a == old(self).attachments@,
            decreases self.attachments@.len() - ia,
        {
            let ghost w = spec_atts_without(orig_a.take(ga), folder@, uid);
            proof {
                assert(self.attachments@.len() == w.len() + orig_a.skip(ga).len());
                assert(ga < orig_a.len());
                assert(self.attachments@[ia as int] == orig_a.skip(ga)[0]);
                assert(orig_a.skip(ga)[0] == orig_a[ga]);
                assert(orig_a.take(ga + 1).drop_last() =~= orig_a.take(ga));
                assert(orig_a.take(ga + 1).last() == orig_a[ga]);
                reveal(Seq::filter);
            }
            let a = &self.attachments[ia];
            if str_eq(a.folder.as_str(), folder) && a.email_uid == uid {
                self.attachments.remove(ia);
                proof {
                    assert(self.attachments@ =~= w + orig_a.skip(ga + 1));
                }
            } else {
                proof {
                    assert(spec_atts_without(orig_a.take(ga + 1), folder@, uid) =~= w.push(
                        orig_a[ga],
                    ));
                    assert(self.attachments@ =~= spec_atts_without(orig_a.take(ga + 1), folder@,
                        uid,
                    ) + orig_a.skip(ga + 1));
                }
                ia = ia + 1;
            }
            proof {
                ga = ga + 1;
            }
        }
        proof {
            assert(orig_a.skip(ga) =~= Seq::<CachedAttachment>::empty());
            assert(ga == orig_a.len());
            assert(orig_a.take(ga) =~= orig_a);
            assert(self.attachments@ =~= spec_atts_without(orig_a, folder@, uid));
        }

        let ghost orig_c = self.assignments@;
        let mut ic: usize = 0;
        let ghost mut gc: int = 0;
        proof {
            assert(orig_c.take(0) =~= Seq::<CategoryAssignment>::empty());
            reveal(Seq::filter);
            assert(self.assignments@ =~= spec_asgs_without(orig_c.take(gc), folder@, uid)
                + orig_c.skip(gc));
        }
        while ic < self.assignments.len()
            invariant
                0 <= gc <= orig_c.len(),
                ic == spec_asgs_without(orig_c.take(gc), folder@, uid).len(),
                self.assignments@ == spec_asgs_without(orig_c.take(gc), folder@, uid)
                    + orig_c.skip(gc),
                self.emails@ == spec_emails_without(old(self).emails@, folder@, uid),
                self.attachments@ == spec_atts_without(old(self).attachments@, folder@, uid),
                self.sync_states@ == old(self).sync_states@,
                self.categories@ == old(self).categories@,
                self.spam_scans@ == old(self).spam_scans@,
                self.spam_states@ == old(self).spam_states@,
                orig_c == old(self).assignments@,
            decreases self.assignments@.len() - ic,
        {
            let ghost w = spec_asgs_without(orig_c.take(gc), folder@, uid);
            proof {
                assert(self.assignments@.len() == w.len() + orig_c.skip(gc).len());
                assert(gc < orig_c.len());
                assert(self.assignments@[ic as int] == orig_c.skip(gc)[0]);
                assert(orig_c.skip(gc)[0] == orig_c[gc]);
                assert(orig_c.take(gc + 1).drop_last() =~= orig_c.take(gc));
                assert(orig_c.take(gc + 1).last() == orig_c[gc]);
                reveal(Seq::filter);
            }
            let c = &self.assignments[ic];
            if str_eq(c.folder.as_str(), folder) && c.uid == uid {
                self.assignments.remove(ic);
                proof {
                    assert(self.assignments@ =~= w + orig_c.skip(gc + 1));
                }
            } else {
                proof {
                    assert(spec_asgs_without(orig_c.take(gc + 1), folder@, uid) =~= w.push(
                        orig_c[gc],
                    ));
                    assert(self.assignments@ =~= spec_asgs_without(orig_c.take(gc + 1), folder@,
                        uid,
                    ) + orig_c.skip(gc + 1));
                }
                ic = ic + 1;
            }
            proof {
                gc = gc + 1;
            }
        }
        proof {
            assert(orig_c.skip(gc) =~= Seq::<CategoryAssignment>::empty());
            assert(gc == orig_c.len());
            assert(orig_c.take(gc) =~= orig_c);
            assert(self.assignments@ =~= spec_asgs_without(orig_c, folder@, uid));
        }

        let ghost orig_s = self.spam_scans@;
        let mut is_: usize = 0;
        let ghost mut gs: int = 0;
        proof {
            assert(orig_s.take(0) =~= Seq::<SpamScan>::empty());
            reveal(Seq::filter);
            assert(self.spam_scans@ =~= spec_spams_without(orig_s.take(gs), folder@, uid)
                + orig_s.skip(gs));
        }
        while is_ < self.spam_scans.len()
            invariant
                0 <= gs <= orig_s.len(),
                is_ == spec_spams_without(orig_s.take(gs), folder@, uid).len(),
                self.spam_scans@ == spec_spams_without(orig_s.take(gs), folder@, uid)
                    + orig_s.skip(gs),
                self.emails@ == spec_emails_without(old(self).emails@, folder@, uid),
                self.attachments@ == spec_atts_without(old(self).attachments@, folder@, uid),
                self.assignments@ == spec_asgs_without(old(self).assignments@, folder@, uid),
                self.sync_states@ == old(self).sync_states@,
                self.categories@ == old(self).categories@,
                self.spam_states@ == old(self).spam_states@,
                orig_s == old(self).spam_scans@,
            decreases self.spam_scans@.len() - is_,
        {
            let ghost w = spec_spams_without(orig_s.take(gs), folder@, uid);
            proof {
                assert(self.spam_scans@.len() == w.len() + orig_s.skip(gs).len());
                assert(gs < orig_s.len());
                assert(self.spam_scans@[is_ as int] == orig_s.skip(gs)[0]);
                assert(orig_s.skip(gs)[0] == orig_s[gs]);
                assert(orig_s.take(gs + 1).drop_last() =~= orig_s.take(gs));
                assert(orig_s.take(gs + 1).last() == orig_s[gs]);
                reveal(Seq::filter);
            }
            let x = &self.spam_scans[is_];
            if str_eq(x.folder.as_str(), folder) && x.uid == uid {
                self.spam_scans.remove(is_);
                proof {
                    assert(self.spam_scans@ =~= w + orig_s.skip(gs + 1));
                }
            } else {
                proof {
                    assert(spec_spams_without(orig_s.take(gs + 1), folder@, uid) =~= w.push(
                        orig_s[gs],
                    ));
                    assert(self.spam_scans@ =~= spec_spams_without(orig_s.take(gs + 1), folder@,
                        uid,
                    ) + orig_s.skip(gs + 1));
                }
                is_ = is_ + 1;
            }
            proof {
                gs = gs + 1;
            }
        }
        proof {
            assert(orig_s.skip(gs) =~= Seq::<SpamScan>::empty());
            assert(orig_s.take(gs) =~= orig_s);
            assert(self.spam_scans@ =~= spec_spams_without(orig_s, folder@, uid));
        }

        proof {
            if spec_cache_wf(*old(self)) {
                lemma_wf_after_filter(*old(self), *self, folder@, uid);
            }
        }
    }
}

/// An attachment row kept by the cascade comes from the original table and
/// does not carry the removed key.
proof fn lemma_atts_without_elem(s: Seq<CachedAttachment>, folder: Seq<char>, uid: u32, x:
    CachedAttachment)
    requires
        spec_atts_without(s, folder, uid).contains(x),
    ensures
        s.contains(x),
        !spec_att_key_is(x, folder, uid),
    decreases s.len(),
{
    reveal(Seq::filter);
    if s.len() > 0 {
        let f = spec_atts_without(s, folder, uid);
        let fd = spec_atts_without(s.drop_last(), folder, uid);
        if !spec_att_key_is(s.last(), folder, uid) && x == s.last() {
            assert(s.contains(x)) by {
                assert(s[s.len() - 1] == x);
            }
        } else {
            assert(fd.contains(x)) by {
                let k = choose|k: int| 0 <= k < f.len() && f[k] == x;
                if !spec_att_key_is(s.last(), folder, uid) {
                    assert(f == fd.push(s.last()));
                    assert(k < fd.len());
                    assert(fd[k] == x);
                } else {
                    assert(f == fd);
                }
            }
            lemma_atts_without_elem(s.drop_last(), folder, uid, x);
            let k = choose|k: int| 0 <= k < s.drop_last().len() && s.drop_last()[k] == x;
            assert(s[k] == x);
        }
    }
}

/// An assignment row kept by the cascade comes from the original table and
/// does not carry the removed key.
proof fn lemma_asgs_without_elem(s: Seq<CategoryAssignment>, folder: Seq<char>, uid: u32, x:
    CategoryAssignment)
    requires
        spec_asgs_without(s, folder, uid).contains(x),
    ensures
        s.contains(x),
        !spec_asg_key_is(x, folder, uid),
    decreases s.len(),
{
    reveal(Seq::filter);
    if s.len() > 0 {
        let f = spec_asgs_without(s, folder, uid);
        let fd = spec_asgs_without(s.drop_last(), folder, uid);
        if !spec_asg_key_is(s.last(), folder, uid) && x == s.last() {
            assert(s.contains(x)) by {
                assert(s[s.len() - 1] == x);
            }
        } else {
            assert(fd.contains(x)) by {
                let k = choose|k: int| 0 <= k < f.len() && f[k] == x;
                if !spec_asg_key_is(s.last(), folder, uid) {
                    assert(f == fd.push(s.last()));
                    assert(k < fd.len());
                    assert(fd[k] == x);
                } else {
                    assert(f == fd);
                }
            }
            lemma_asgs_without_elem(s.drop_last(), folder, uid, x);
            let k = choose|k: int| 0 <= k < s.drop_last().len() && s.drop_last()[k] == x;
            assert(s[k] == x);
        }
    }
}

/// After filtering one key out of all three tables, referential integrity
/// still holds.
proof fn lemma_wf_after_filter(pre: EmailCache, post: EmailCache, folder: Seq<char>, uid: u32)
    requires
        spec_cache_wf(pre),
        post.emails@ == spec_emails_without(pre.emails@, folder, uid),
        post.attachments@ == spec_atts_without(pre.attachments@, folder, uid),
        post.assignments@ == spec_asgs_without(pre.assignments@, folder, uid),
        post.spam_scans@ == spec_spams_without(pre.spam_scans@, folder, uid),
    ensures
        spec_cache_wf(post),
{
    pre.attachments@.filter_lemma(|a: CachedAttachment| !spec_att_key_is(a, folder, uid));
    pre.assignments@.filter_lemma(|c: CategoryAssignment| !spec_asg_key_is(c, folder, uid));
    assert forall|i: int| 0 <= i < post.attachments@.len() implies spec_find_email(
        post.emails@,
        (#[trigger] post.attachments@[i]).folder@,
        post.attachments@[i].email_uid,
    ) is Some by {
        let a = post.attachments@[i];
        assert(spec_atts_without(pre.attachments@, folder, uid).contains(a)) by {
            assert(spec_atts_without(pre.attachments@, folder, uid)[i] == a);
        }
        lemma_atts_without_elem(pre.attachments@, folder, uid, a);
        let j = choose|j: int| 0 <= j < pre.attachments@.len() && pre.attachments@[j] == a;
        assert(spec_find_email(pre.emails@, a.folder@, a.email_uid) is Some);
        assert(!spec_att_key_is(a, folder, uid));
        lemma_find_filter_other(pre.emails@, a.folder@, a.email_uid, folder, uid);
    }
    assert forall|i: int| 0 <= i < post.assignments@.len() implies spec_find_email(
        post.emails@,
        (#[trigger] post.assignments@[i]).folder@,
        post.assignments@[i].uid,
    ) is Some by {
        let c = post.assignments@[i];
        assert(spec_asgs_without(pre.assignments@, folder, uid).contains(c)) by {
            assert(spec_asgs_without(pre.assignments@, folder, uid)[i] == c);
        }
        lemma_asgs_without_elem(pre.assignments@, folder, uid, c);
        let j = choose|j: int| 0 <= j < pre.assignments@.len() && pre.assignments@[j] == c;
        assert(spec_find_email(pre.emails@, c.folder@, c.uid) is Some);
        assert(!spec_asg_key_is(c, folder, uid));
        lemma_find_filter_other(pre.emails@, c.folder@, c.uid, folder, uid);
    }
    assert forall|i: int| 0 <= i < post.spam_scans@.len() implies spec_find_email(
        post.emails@,
        (#[trigger] post.spam_scans@[i]).folder@,
        post.spam_scans@[i].uid,
    ) is Some by {
        let x = post.spam_scans@[i];
        assert(spec_spams_without(pre.spam_scans@, folder, uid).contains(x)) by {
            assert(spec_spams_without(pre.spam_scans@, folder, uid)[i] == x);
        }
        lemma_spams_without_elem(pre.spam_scans@, folder, uid, x);
        let j = choose|j: int| 0 <= j < pre.spam_scans@.len() && pre.spam_scans@[j] == x;
        assert(spec_find_email(pre.emails@, x.folder@, x.uid) is Some);
        assert(!spec_spam_key_is(x, folder, uid));
        lemma_find_filter_other(pre.emails@, x.folder@, x.uid, folder, uid);
    }
}

/// A spam verdict kept by the cascade comes from the original table and does
/// not carry the removed key.
proof fn lemma_spams_without_elem(s: Seq<SpamScan>, folder: Seq<char>, uid: u32, x: SpamScan)
    requires
        spec_spams_without(s, folder, uid).contains(x),
    ensures
        s.contains(x),
        !spec_spam_key_is(x, folder, uid),
    decreases s.len(),
{
    reveal(Seq::filter);
    if s.len() > 0 {
        let f = spec_spams_without(s, folder, uid);
        let fd = spec_spams_without(s.drop_last(), folder, uid);
        if !spec_spam_key_is(s.last(), folder, uid) && x == s.last() {
            assert(s.contains(x)) by {
                assert(s[s.len() - 1] == x);
            }
        } else {
            assert(fd.contains(x)) by {
                let k = choose|k: int| 0 <= k < f.len() && f[k] == x;
                if !spec_spam_key_is(s.last(), folder, uid) {
                    assert(f == fd.push(s.last()));
                    assert(k < fd.len());
                    assert(fd[k] == x);
                } else {
                    assert(f == fd);
                }
            }
            lemma_spams_without_elem(s.drop_last(), folder, uid, x);
            let k = choose|k: int| 0 <= k < s.drop_last().len() && s.drop_last()[k] == x;
            assert(s[k] == x);
        }
    }
}

/// Filtering key `(df, du)` out of the email rows leaves lookups of any other
/// key with a result.
proof fn lemma_find_filter_other(
    rows: Seq<CachedEmail>,
    f: Seq<char>,
    u: u32,
    df: Seq<char>,
    du: u32,
)
    requires
        spec_find_email(rows, f, u) is Some,
        !(f == df && u == du),
    ensures
        spec_find_email(spec_emails_without(rows, df, du), f, u) is Some,
{
    let e = spec_find_email(rows, f, u)->0;
    lemma_find_email_contains(rows, f, u);
    assert(!spec_email_key_is(e, df, du));
    lemma_emails_without_keeps(rows, df, du, e);
    let filtered = spec_emails_without(rows, df, du);
    let k = choose|k: int| 0 <= k < filtered.len() && filtered[k] == e;
    assert(spec_email_key_is(filtered[k], f, u));
    lemma_find_email_of_contained(filtered, f, u);
}

/// A row that does not carry the removed key survives the removal.
proof fn lemma_emails_without_keeps(s: Seq<CachedEmail>, df: Seq<char>, du: u32, x: CachedEmail)
    requires
        s.contains(x),
        !spec_email_key_is(x, df, du),
    ensures
        spec_emails_without(s, df, du).contains(x),
    decreases s.len(),
{
    reveal(Seq::filter);
    if s.len() > 0 {
        let f = spec_emails_without(s, df, du);
        let fd = spec_emails_without(s.drop_last(), df, du);
        if x == s.last() {
            assert(f == fd.push(x));
            assert(f[f.len() - 1] == x);
        } else {
            let i = choose|i: int| 0 <= i < s.len() && s[i] == x;
            assert(s.drop_last()[i] == x);
            lemma_emails_without_keeps(s.drop_last(), df, du, x);
            let k = choose|k: int| 0 <= k < fd.len() && fd[k] == x;
            if !spec_email_key_is(s.last(), df, du) {
                assert(f == fd.push(s.last()));
                assert(f[k] == x);
            } else {
                assert(f == fd);
            }
        }
    }
}

/// No row of the filtered table still carries the removed key.
proof fn lemma_emails_without_no_key(s: Seq<CachedEmail>, df: Seq<char>, du: u32)
    ensures
        forall|m: int|
            0 <= m < spec_emails_without(s, df, du).len() ==> !spec_email_key_is(
                #[trigger] spec_emails_without(s, df, du)[m],
                df,
                du,
            ),
    decreases s.len(),
{
    reveal(Seq::filter);
    if s.len() > 0 {
        lemma_emails_without_no_key(s.drop_last(), df, du);
        let w = spec_emails_without(s, df, du);
        let wd = spec_emails_without(s.drop_last(), df, du);
        assert forall|m: int| 0 <= m < w.len() implies !spec_email_key_is(w[m], df, du) by {
            if m < wd.len() {
                assert(w[m] == wd[m]);
            } else {
                assert(w[m] == s.last());
            }
        }
    }
}

/// Every row of the filtered table is a row of the original.
proof fn lemma_emails_without_sub(s: Seq<CachedEmail>, df: Seq<char>, du: u32)
    ensures
        forall|m: int|
            0 <= m < spec_emails_without(s, df, du).len() ==> s.contains(
                #[trigger] spec_emails_without(s, df, du)[m],
            ),
    decreases s.len(),
{
    reveal(Seq::filter);
    if s.len() > 0 {
        lemma_emails_without_sub(s.drop_last(), df, du);
        let w = spec_emails_without(s, df, du);
        let wd = spec_emails_without(s.drop_last(), df, du);
        assert forall|m: int| 0 <= m < w.len() implies s.contains(w[m]) by {
            if m < wd.len() {
                assert(w[m] == wd[m]);
                let i = choose|i: int|
                    0 <= i < s.drop_last().len() && s.drop_last()[i] == wd[m];
                assert(s[i] == wd[m]);
            } else {
                assert(w[m] == s.last());
                assert(s[s.len() - 1] == s.last());
            }
        }
    }
}

/// A successful lookup is a row of the table.
proof fn lemma_find_email_contains(rows: Seq<CachedEmail>, f: Seq<char>, u: u32)
    requires
        spec_find_email(rows, f, u) is Some,
    ensures
        rows.contains(spec_find_email(rows, f, u)->0),
        spec_email_key_is(spec_find_email(rows, f, u)->0, f, u),
    decreases rows.len(),
{
    if rows.len() > 0 {
        if spec_email_key_is(rows[0], f, u) {
            assert(rows[0] == spec_find_email(rows, f, u)->0);
        } else {
            lemma_find_email_contains(rows.drop_first(), f, u);
            let e = spec_find_email(rows.drop_first(), f, u)->0;
            let i = choose|i: int|
                0 <= i < rows.drop_first().len() && rows.drop_first()[i] == e;
            assert(rows[i + 1] == e);
        }
    }
}

impl EmailCache {
    /// Removes every email row with the key, touching no other table.
    fn remove_email_key(&mut self, folder: &str, uid: u32)
        ensures
            final(self).emails@ == spec_emails_without(old(self).emails@, folder@, uid),
            final(self).attachments@ == old(self).attachments@,
            final(self).assignments@ == old(self).assignments@,
            final(self).sync_states@ == old(self).sync_states@,
            final(self).categories@ == old(self).categories@,
            final(self).spam_scans@ == old(self).spam_scans@,
            final(self).spam_states@ == old(self).spam_states@,
    {
        let ghost orig_e = self.emails@;
        let mut i: usize = 0;
        let ghost mut gj: int = 0;
        proof {
            assert(orig_e.take(0) =~= Seq::<CachedEmail>::empty());
            reveal(Seq::filter);
            assert(self.emails@ =~= spec_emails_without(orig_e.take(gj), folder@, uid)
                + orig_e.skip(gj));
        }
        while i < self.emails.len()
            invariant
                0 <= gj <= orig_e.len(),
                i == spec_emails_without(orig_e.take(gj), folder@, uid).len(),
                self.emails@ == spec_emails_without(orig_e.take(gj), folder@, uid) + orig_e.skip(
                    gj,
                ),
                self.attachments@ == old(self).attachments@,
                self.assignments@ == old(self).assignments@,
                self.sync_states@ == old(self).sync_states@,
                self.categories@ == old(self).categories@,
                self.spam_scans@ == old(self).spam_scans@,
                self.spam_states@ == old(self).spam_states@,
                orig_e == old(self).emails@,
            decreases self.emails@.len() - i,
        {
            let ghost w = spec_emails_without(orig_e.take(gj), folder@, uid);
            proof {
                assert(self.emails@.len() == w.len() + orig_e.skip(gj).len());
                assert(gj < orig_e.len());
                assert(self.emails@[i as int] == orig_e.skip(gj)[0]);
                assert(orig_e.skip(gj)[0] == orig_e[gj]);
                assert(orig_e.take(gj + 1).drop_last() =~= orig_e.take(gj));
                assert(orig_e.take(gj + 1).last() == orig_e[gj]);
                reveal(Seq::filter);
            }
            let e = &self.emails[i];
            if str_eq(e.folder.as_str(), folder) && e.uid == uid {
                self.emails.remove(i);
                proof {
                    assert(self.emails@ =~= w + orig_e.skip(gj + 1));
                }
            } else {
                proof {
                    assert(spec_emails_without(orig_e.take(gj + 1), folder@, uid) =~= w.push(
                        orig_e[gj],
                    ));
                    assert(self.emails@ =~= spec_emails_without(orig_e.take(gj + 1), folder@, uid)
                        + orig_e.skip(gj + 1));
                }
                i = i + 1;
            }
            proof {
                gj = gj + 1;
            }
        }
        proof {
            assert(orig_e.skip(gj) =~= Seq::<CachedEmail>::empty());
            assert(gj == orig_e.len());
            assert(orig_e.take(gj) =~= orig_e);
            assert(self.emails@ =~= spec_emails_without(orig_e, folder@, uid));
        }
    }

    /// Removes the watermark row of a folder, touching no other table.
    fn remove_sync_key(&mut self, folder: &str)
        ensures
            final(self).sync_states@ == spec_syncs_without(old(self).sync_states@, folder@),
            final(self).emails@ == old(self).emails@,
            final(self).attachments@ == old(self).attachments@,
            final(self).assignments@ == old(self).assignments@,
            final(self).categories@ == old(self).categories@,
            final(self).spam_scans@ == old(self).spam_scans@,
            final(self).spam_states@ == old(self).spam_states@,
    {
        let ghost orig = self.sync_states@;
        let mut i: usize = 0;
        let ghost mut gj: int = 0;
        proof {
            assert(orig.take(0) =~= Seq::<SyncState>::empty());
            reveal(Seq::filter);
            assert(self.sync_states@ =~= spec_syncs_without(orig.take(gj), folder@) + orig.skip(
                gj,
            ));
        }
        while i < self.sync_states.len()
            invariant
                0 <= gj <= orig.len(),
                i == spec_syncs_without(orig.take(gj), folder@).len(),
                self.sync_states@ == spec_syncs_without(orig.take(gj), folder@) + orig.skip(gj),
                self.emails@ == old(self).emails@,
                self.attachments@ == old(self).attachments@,
                self.assignments@ == old(self).assignments@,
                self.categories@ == old(self).categories@,
                self.spam_scans@ == old(self).spam_scans@,
                self.spam_states@ == old(self).spam_states@,
                orig == old(self).sync_states@,
            decreases self.sync_states@.len() - i,
        {
            let ghost w = spec_syncs_without(orig.take(gj), folder@);
            proof {
                assert(self.sync_states@.len() == w.len() + orig.skip(gj).len());
                assert(gj < orig.len());
                assert(self.sync_states@[i as int] == orig.skip(gj)[0]);
                assert(orig.skip(gj)[0] == orig[gj]);
                assert(orig.take(gj + 1).drop_last() =~= orig.take(gj));
                assert(orig.take(gj + 1).last() == orig[gj]);
                reveal(Seq::filter);
            }
            let s = &self.sync_states[i];
            if str_eq(s.folder.as_str(), folder) {
                self.sync_states.remove(i);
                proof {
                    assert(self.sync_states@ =~= w + orig.skip(gj + 1));
                }
            } else {
                proof {
                    assert(spec_syncs_without(orig.take(gj + 1), folder@) =~= w.push(orig[gj]));
                    assert(self.sync_states@ =~= spec_syncs_without(orig.take(gj + 1), folder@)
                        + orig.skip(gj + 1));
                }
                i = i + 1;
            }
            proof {
                gj = gj + 1;
            }
        }
        proof {
            assert(orig.skip(gj) =~= Seq::<SyncState>::empty());
            assert(orig.take(gj) =~= orig);
            assert(self.sync_states@ =~= spec_syncs_without(orig, folder@));
        }
    }

    /// Removes the assignment row of one email, touching no other table.
    fn remove_asg_key(&mut self, folder: &str, uid: u32)
        ensures
            final(self).assignments@ == spec_asgs_without(old(self).assignments@, folder@, uid),
            final(self).emails@ == old(self).emails@,
            final(self).attachments@ == old(self).attachments@,
            final(self).sync_states@ == old(self).sync_states@,
            final(self).categories@ == old(self).categories@,
            final(self).spam_scans@ == old(self).spam_scans@,
            final(self).spam_states@ == old(self).spam_states@,
    {
        let ghost orig = self.assignments@;
        let mut i: usize = 0;
        let ghost mut gj: int = 0;
        proof {
            assert(orig.take(0) =~= Seq::<CategoryAssignment>::empty());
            reveal(Seq::filter);
            assert(self.assignments@ =~= spec_asgs_without(orig.take(gj), folder@, uid)
                + orig.skip(gj));
        }
        while i < self.assignments.len()
            invariant
                0 <= gj <= orig.len(),
                i == spec_asgs_without(orig.take(gj), folder@, uid).len(),
                self.assignments@ == spec_asgs_without(orig.take(gj), folder@, uid) + orig.skip(
                    gj,
                ),
                self.emails@ == old(self).emails@,
                self.attachments@ == old(self).attachments@,
                self.sync_states@ == old(self).sync_states@,
                self.categories@ == old(self).categories@,
                self.spam_scans@ == old(self).spam_scans@,
                self.spam_states@ == old(self).spam_states@,
                orig == old(self).assignments@,
            decreases self.assignments@.len() - i,
        {
            let ghost w = spec_asgs_without(orig.take(gj), folder@, uid);
            proof {
                assert(self.assignments@.len() == w.len() + orig.skip(gj).len());
                assert(gj < orig.len());
                assert(self.assignments@[i as int] == orig.skip(gj)[0]);
                assert(orig.skip(gj)[0] == orig[gj]);
                assert(orig.take(gj + 1).drop_last() =~= orig.take(gj));
                assert(orig.take(gj + 1).last() == orig[gj]);
                reveal(Seq::filter);
            }
            let c = &self.assignments[i];
            if str_eq(c.folder.as_str(), folder) && c.uid == uid {
                self.assignments.remove(i);
                proof {
                    assert(self.assignments@ =~= w + orig.skip(gj + 1));
                }
            } else {
                proof {
                    assert(spec_asgs_without(orig.take(gj + 1), folder@, uid) =~= w.push(
                        orig[gj],
                    ));
                    assert(self.assignments@ =~= spec_asgs_without(orig.take(gj + 1), folder@, uid)
                        + orig.skip(gj + 1));
                }
                i = i + 1;
            }
            proof {
                gj = gj + 1;
            }
        }
        proof {
            assert(orig.skip(gj) =~= Seq::<CategoryAssignment>::empty());
            assert(orig.take(gj) =~= orig);
            assert(self.assignments@ =~= spec_asgs_without(orig, folder@, uid));
        }
    }

    /// Upserts a header row by `(folder, uid)`. A replaced row loses its
    /// cached body, as a header-only store carries none.
    pub fn store_header(&mut self, folder: &str, header: &EmailHeader, date_timestamp: i64, now:
        i64)
        ensures
            final(self).emails@ == spec_emails_without(old(self).emails@, folder@,
                header.uid,
            ).push(final(self).emails@.last()),
            spec_stored_header_row(
                final(self).emails@.last(),
                folder@,
                *header,
                date_timestamp,
                now,
            ),
            spec_find_email(final(self).emails@, folder@, header.uid) == Some(
                final(self).emails@.last(),
            ),
            final(self).attachments@ == old(self).attachments@,
            final(self).assignments@ == old(self).assignments@,
            final(self).sync_states@ == old(self).sync_states@,
            final(self).categories@ == old(self).categories@,
            final(self).spam_scans@ == old(self).spam_scans@,
            final(self).spam_states@ == old(self).spam_states@,
            spec_cache_wf(*old(self)) ==> spec_cache_wf(*final(self)),
    {
        self.remove_email_key(folder, header.uid);
        let row = CachedEmail {
            folder: folder.to_owned(),
            uid: header.uid,
            subject: header.subject.clone(),
            from: header.from.clone(),
            to: header.to.clone(),
            cc: String::new(),
            date: header.date.clone(),
            date_timestamp,
            is_read: header.is_read,
            has_attachments: header.has_attachments,
            body_text: String::new(),
            body_html: String::new(),
            cached_at: now,
        };
        self.emails.push(row);
        proof {
            assert(final(self).emails@.last() == final(self).emails@[final(self).emails@.len()
                - 1]);
            let w = spec_emails_without(old(self).emails@, folder@, header.uid);
            lemma_emails_without_no_key(old(self).emails@, folder@, header.uid);
            assert forall|k: int| 0 <= k < self.emails@.len() - 1 implies !spec_email_key_is(
                #[trigger] self.emails@[k],
                folder@,
                header.uid,
            ) by {
                assert(self.emails@[k] == w[k]);
            }
            lemma_find_email_hit(self.emails@, folder@, header.uid, self.emails@.len() - 1);
            if spec_cache_wf(*old(self)) {
                lemma_wf_after_upsert(*old(self), *self, folder@, header.uid);
            }
        }
    }

    /// Upserts each header in turn; all rows share one clock reading, and
    /// `date_timestamps[i]` orders `headers[i]`.
    pub fn store_headers(
        &mut self,
        folder: &str,
        headers: &Vec<EmailHeader>,
        date_timestamps: &Vec<i64>,
        now: i64,
    )
        requires
            headers@.len() == date_timestamps@.len(),
        ensures
            final(self).attachments@ == old(self).attachments@,
            final(self).assignments@ == old(self).assignments@,
            final(self).sync_states@ == old(self).sync_states@,
            final(self).categories@ == old(self).categories@,
            final(self).spam_scans@ == old(self).spam_scans@,
            final(self).spam_states@ == old(self).spam_states@,
            spec_cache_wf(*old(self)) ==> spec_cache_wf(*final(self)),
            forall|i: int|
                0 <= i < headers@.len() ==> spec_find_email(
                    final(self).emails@,
                    folder@,
                    (#[trigger] headers@[i]).uid,
                ) is Some,
            forall|i: int|
                0 <= i < headers@.len() && spec_last_with_uid(headers@, i) ==> (spec_find_email(
                    final(self).emails@,
                    folder@,
                    (#[trigger] headers@[i]).uid,
                ) matches Some(row) && spec_stored_header_row(
                    row,
                    folder@,
                    headers@[i],
                    date_timestamps@[i],
                    now,
                )),
    {
        let mut i: usize = 0;
        while i < headers.len()
            invariant
                i <= headers@.len(),
                headers@.len() == date_timestamps@.len(),
                self.attachments@ == old(self).attachments@,
                self.assignments@ == old(self).assignments@,
                self.sync_states@ == old(self).sync_states@,
                self.categories@ == old(self).categories@,
                self.spam_scans@ == old(self).spam_scans@,
                self.spam_states@ == old(self).spam_states@,
                spec_cache_wf(*old(self)) ==> spec_cache_wf(*self),
                forall|k: int|
                    0 <= k < i ==> spec_find_email(
                        self.emails@,
                        folder@,
                        (#[trigger] headers@[k]).uid,
                    ) is Some,
                forall|k: int|
                    0 <= k < i && spec_last_with_uid(headers@.take(i as int), k)
                        ==> spec_rows_hold_header(
                        self.emails@,
                        folder@,
                        #[trigger] headers@[k],
                        date_timestamps@[k],
                        now,
                    ),
            decreases headers@.len() - i,
        {
            let ghost prev = self.emails@;
            self.store_header(folder, &headers[i], date_timestamps[i], now);
            proof {
                let row = self.emails@.last();
                assert(spec_email_key_is(row, folder@, headers@[i as int].uid));
                lemma_find_email_of_contained_at(self.emails@, folder@, headers@[i as int].uid,
                    self.emails@.len() - 1);
                assert forall|k: int| 0 <= k < i + 1 implies spec_find_email(
                    self.emails@,
                    folder@,
                    (#[trigger] headers@[k]).uid,
                ) is Some by {
                    if k < i {
                        if headers@[k].uid != headers@[i as int].uid {
                            lemma_find_filter_other(prev, folder@, headers@[k].uid, folder@,
                                headers@[i as int].uid);
                            lemma_find_push_keeps(
                                spec_emails_without(prev, folder@, headers@[i as int].uid),
                                folder@,
                                headers@[k].uid,
                                row,
                            );
                        } else {
                            lemma_find_email_of_contained_at(self.emails@, folder@,
                                headers@[k].uid, self.emails@.len() - 1);
                        }
                    }
                }
                let hi = headers@[i as int];
                let cur = self.emails@;
                let w = spec_emails_without(prev, folder@, hi.uid);
                lemma_emails_without_no_key(prev, folder@, hi.uid);
                lemma_emails_without_sub(prev, folder@, hi.uid);
                assert(cur == w.push(cur.last()));
                assert forall|k: int|
                    0 <= k < i + 1 && spec_last_with_uid(
                        headers@.take(i as int + 1),
                        k,
                    ) implies spec_rows_hold_header(
                    cur,
                    folder@,
                    #[trigger] headers@[k],
                    date_timestamps@[k],
                    now,
                ) by {
                    let hk = headers@[k];
                    if k == i {
                        assert(spec_email_key_is(cur[cur.len() - 1], folder@, hk.uid));
                        assert forall|m: int|
                            0 <= m < cur.len() && spec_email_key_is(
                                #[trigger] cur[m],
                                folder@,
                                hk.uid,
                            ) implies spec_stored_header_row(
                            cur[m],
                            folder@,
                            hk,
                            date_timestamps@[k],
                            now,
                        ) by {
                            if m < cur.len() - 1 {
                                assert(cur[m] == w[m]);
                                assert(!spec_email_key_is(w[m], folder@, hi.uid));
                            }
                        }
                    } else {
                        assert(headers@.take(i as int + 1)[i as int] == hi);
                        assert(headers@.take(i as int + 1)[k] == hk);
                        assert(hk.uid != hi.uid);
                        assert(spec_last_with_uid(headers@.take(i as int), k)) by {
                            assert forall|j: int| k < j < i implies (#[trigger] headers@.take(
                                i as int,
                            )[j]).uid != headers@.take(i as int)[k].uid by {
                                assert(headers@.take(i as int)[j] == headers@[j]);
                                assert(headers@.take(i as int + 1)[j] == headers@[j]);
                            }
                        }
                        assert(spec_rows_hold_header(prev, folder@, hk, date_timestamps@[k],
                            now));
                        let m0 = choose|m0: int|
                            0 <= m0 < prev.len() && spec_email_key_is(
                                #[trigger] prev[m0],
                                folder@,
                                hk.uid,
                            );
                        let x = prev[m0];
                        assert(prev.contains(x));
                        lemma_emails_without_keeps(prev, folder@, hi.uid, x);
                        let mw = choose|mw: int| 0 <= mw < w.len() && w[mw] == x;
                        assert(spec_email_key_is(cur[mw], folder@, hk.uid));
                        assert forall|m: int|
                            0 <= m < cur.len() && spec_email_key_is(
                                #[trigger] cur[m],
                                folder@,
                                hk.uid,
                            ) implies spec_stored_header_row(
                            cur[m],
                            folder@,
                            hk,
                            date_timestamps@[k],
                            now,
                        ) by {
                            if m < cur.len() - 1 {
                                assert(cur[m] == w[m]);
                                assert(prev.contains(w[m]));
                                let mp = choose|mp: int|
                                    0 <= mp < prev.len() && prev[mp] == w[m];
                                assert(spec_email_key_is(prev[mp], folder@, hk.uid));
                            } else {
                                assert(spec_email_key_is(cur[m], folder@, hi.uid));
                            }
                        }
                    }
                }
            }
            i = i + 1;
        }
        proof {
            assert(headers@.take(headers@.len() as int) =~= headers@);
            assert forall|ii: int|
                0 <= ii < headers@.len() && spec_last_with_uid(headers@, ii) implies (
            spec_find_email(
                self.emails@,
                folder@,
                (#[trigger] headers@[ii]).uid,
            ) matches Some(row) && spec_stored_header_row(
                row,
                folder@,
                headers@[ii],
                date_timestamps@[ii],
                now,
            )) by {
                assert(spec_rows_hold_header(self.emails@, folder@, headers@[ii],
                    date_timestamps@[ii], now));
                lemma_find_email_of_contained(self.emails@, folder@, headers@[ii].uid);
                lemma_find_email_contains(self.emails@, folder@, headers@[ii].uid);
                let row = spec_find_email(self.emails@, folder@, headers@[ii].uid)->0;
                let m = choose|m: int|
                    0 <= m < self.emails@.len() && self.emails@[m] == row;
                assert(spec_email_key_is(self.emails@[m], folder@, headers@[ii].uid));
            }
        }
    }

    /// Stores the fetched bodies of a message already in the cache; a missing
    /// row stays missing.
    pub fn store_email_body(&mut self, folder: &str, uid: u32, body_text: &str, body_html: &str)
        ensures
            final(self).emails@.len() == old(self).emails@.len(),
            forall|i: int|
                0 <= i < old(self).emails@.len() && spec_email_key_is(
                    #[trigger] old(self).emails@[i],
                    folder@,
                    uid,
                ) ==> spec_body_updated(
                    final(self).emails@[i],
                    old(self).emails@[i],
                    body_text@,
                    body_html@,
                ),
            forall|i: int|
                0 <= i < old(self).emails@.len() && !spec_email_key_is(
                    #[trigger] old(self).emails@[i],
                    folder@,
                    uid,
                ) ==> final(self).emails@[i] == old(self).emails@[i],
            final(self).attachments@ == old(self).attachments@,
            final(self).assignments@ == old(self).assignments@,
            final(self).sync_states@ == old(self).sync_states@,
            final(self).categories@ == old(self).categories@,
            final(self).spam_scans@ == old(self).spam_scans@,
            final(self).spam_states@ == old(self).spam_states@,
            spec_cache_wf(*old(self)) ==> spec_cache_wf(*final(self)),
    {
        let mut i: usize = 0;
        while i < self.emails.len()
            invariant
                i <= self.emails@.len(),
                self.emails@.len() == old(self).emails@.len(),
                forall|k: int|
                    0 <= k < i && spec_email_key_is(#[trigger] old(self).emails@[k], folder@, uid)
                        ==> spec_body_updated(self.emails@[k], old(self).emails@[k], body_text@,
                        body_html@,
                    ),
                forall|k: int|
                    0 <= k < i && !spec_email_key_is(#[trigger] old(self).emails@[k], folder@, uid)
                        ==> self.emails@[k] == old(self).emails@[k],
                forall|k: int| i <= k < self.emails@.len() ==> self.emails@[k] == old(
                    self,
                ).emails@[k],
                self.attachments@ == old(self).attachments@,
                self.assignments@ == old(self).assignments@,
                self.sync_states@ == old(self).sync_states@,
                self.categories@ == old(self).categories@,
                self.spam_scans@ == old(self).spam_scans@,
                self.spam_states@ == old(self).spam_states@,
            decreases self.emails@.len() - i,
        {
            let hit = {
                let e = &self.emails[i];
                str_eq(e.folder.as_str(), folder) && e.uid == uid
            };
            if hit {
                let ghost before = self.emails@;
                let e = self.emails.remove(i);
                let updated = CachedEmail {
                    body_text: body_text.to_owned(),
                    body_html: body_html.to_owned(),
                    ..e
                };
                self.emails.insert(i, updated);
                proof {
                    assert(self.emails@ =~= before.update(i as int, self.emails@[i as int]));
                }
            }
            i = i + 1;
        }
        proof {
            if spec_cache_wf(*old(self)) {
                assert forall|j: int| 0 <= j < self.attachments@.len() implies spec_find_email(
                    self.emails@,
                    (#[trigger] self.attachments@[j]).folder@,
                    self.attachments@[j].email_uid,
                ) is Some by {
                    lemma_find_same_keys(old(self).emails@, self.emails@,
                        self.attachments@[j].folder@, self.attachments@[j].email_uid);
                }
                assert forall|j: int| 0 <= j < self.assignments@.len() implies spec_find_email(
                    self.emails@,
                    (#[trigger] self.assignments@[j]).folder@,
                    self.assignments@[j].uid,
                ) is Some by {
                    lemma_find_same_keys(old(self).emails@, self.emails@,
                        self.assignments@[j].folder@, self.assignments@[j].uid);
                }
                assert forall|j: int| 0 <= j < self.spam_scans@.len() implies spec_find_email(
                    self.emails@,
                    (#[trigger] self.spam_scans@[j]).folder@,
                    self.spam_scans@[j].uid,
                ) is Some by {
                    lemma_find_same_keys(old(self).emails@, self.emails@,
                        self.spam_scans@[j].folder@, self.spam_scans@[j].uid);
                }
            }
        }
    }

    /// Marks a cached message read or unread; a missing row stays missing.
    pub fn update_read_status(&mut self, folder: &str, uid: u32, is_read: bool)
        ensures
            final(self).emails@.len() == old(self).emails@.len(),
            forall|i: int|
                0 <= i < old(self).emails@.len() ==> final(self).emails@[i]
                    == (if spec_email_key_is(#[trigger] old(self).emails@[i], folder@, uid) {
                    spec_with_read(old(self).emails@[i], is_read)
                } else {
                    old(self).emails@[i]
                }),
            final(self).attachments@ == old(self).attachments@,
            final(self).assignments@ == old(self).assignments@,
            final(self).sync_states@ == old(self).sync_states@,
            final(self).categories@ == old(self).categories@,
            final(self).spam_scans@ == old(self).spam_scans@,
            final(self).spam_states@ == old(self).spam_states@,
            spec_cache_wf(*old(self)) ==> spec_cache_wf(*final(self)),
    {
        let mut i: usize = 0;
        while i < self.emails.len()
            invariant
                i <= self.emails@.len(),
                self.emails@.len() == old(self).emails@.len(),
                forall|k: int|
                    0 <= k < i ==> self.emails@[k] == (if spec_email_key_is(
                        #[trigger] old(self).emails@[k],
                        folder@,
                        uid,
                    ) {
                        spec_with_read(old(self).emails@[k], is_read)
                    } else {
                        old(self).emails@[k]
                    }),
                forall|k: int| i <= k < self.emails@.len() ==> self.emails@[k] == old(
                    self,
                ).emails@[k],
                self.attachments@ == old(self).attachments@,
                self.assignments@ == old(self).assignments@,
                self.sync_states@ == old(self).sync_states@,
                self.categories@ == old(self).categories@,
                self.spam_scans@ == old(self).spam_scans@,
                self.spam_states@ == old(self).spam_states@,
            decreases self.emails@.len() - i,
        {
            let hit = {
                let e = &self.emails[i];
                str_eq(e.folder.as_str(), folder) && e.uid == uid
            };
            if hit {
                let ghost before = self.emails@;
                let e = self.emails.remove(i);
                let updated = CachedEmail { is_read, ..e };
                self.emails.insert(i, updated);
                proof {
                    assert(self.emails@ =~= before.update(i as int, self.emails@[i as int]));
                }
            }
            i = i + 1;
        }
        proof {
            if spec_cache_wf(*old(self)) {
                assert forall|j: int| 0 <= j < self.attachments@.len() implies spec_find_email(
                    self.emails@,
                    (#[trigger] self.attachments@[j]).folder@,
                    self.attachments@[j].email_uid,
                ) is Some by {
                    lemma_find_same_keys(old(self).emails@, self.emails@,
                        self.attachments@[j].folder@, self.attachments@[j].email_uid);
                }
                assert forall|j: int| 0 <= j < self.assignments@.len() implies spec_find_email(
                    self.emails@,
                    (#[trigger] self.assignments@[j]).folder@,
                    self.assignments@[j].uid,
                ) is Some by {
                    lemma_find_same_keys(old(self).emails@, self.emails@,
                        self.assignments@[j].folder@, self.assignments@[j].uid);
                }
                assert forall|j: int| 0 <= j < self.spam_scans@.len() implies spec_find_email(
                    self.emails@,
                    (#[trigger] self.spam_scans@[j]).folder@,
                    self.spam_scans@[j].uid,
                ) is Some by {
                    lemma_find_same_keys(old(self).emails@, self.emails@,
                        self.spam_scans@[j].folder@, self.spam_scans@[j].uid);
                }
            }
        }
    }

    /// Whether the cached message already carries a body.
    pub fn has_email_body(&self, folder: &str, uid: u32) -> (r: bool)
        ensures
            r == (match spec_find_email(self.emails@, folder@, uid) {
                Some(e) => e.body_text@.len() > 0,
                None => false,
            }),
    {
        match self.find_email_idx(folder, uid) {
            Some(i) => self.emails[i].body_text.as_str().unicode_len() > 0,
            None => false,
        }
    }

    /// The watermark of a folder, if one was ever set.
    pub fn get_sync_state(&self, folder: &str) -> (r: Option<SyncState>)
        ensures
            r == spec_find_sync(self.sync_states@, folder@),
    {
        let mut i: usize = 0;
        while i < self.sync_states.len()
            invariant
                i <= self.sync_states@.len(),
                forall|k: int| 0 <= k < i ==> (#[trigger] self.sync_states@[k]).folder@ != folder@,
            decreases self.sync_states@.len() - i,
        {
            let s = &self.sync_states[i];
            if str_eq(s.folder.as_str(), folder) {
                proof {
                    lemma_find_sync_hit(self.sync_states@, folder@, i as int);
                }
                return Some(SyncState {
                    folder: s.folder.clone(),
                    last_sync: s.last_sync,
                    highest_uid: s.highest_uid,
                });
            }
            i = i + 1;
        }
        proof {
            lemma_find_sync_miss(self.sync_states@, folder@);
        }
        None
    }

    /// Advances a folder's watermark. The stored UID never moves backwards:
    /// the new value is clamped to the maximum of the old and the given one
    /// (the monotonic-watermark rule).
    pub fn set_sync_state(&mut self, folder: &str, highest_uid: u32, now: i64)
        ensures
            spec_find_sync(final(self).sync_states@, folder@) matches Some(s) && s.folder@
                == folder@ && s.last_sync == now && s.highest_uid == spec_clamped_uid(
                old(self).sync_states@,
                folder@,
                highest_uid,
            ),
            forall|f: Seq<char>|
                f != folder@ ==> #[trigger] spec_find_sync(final(self).sync_states@, f)
                    == spec_find_sync(old(self).sync_states@, f),
            final(self).emails@ == old(self).emails@,
            final(self).attachments@ == old(self).attachments@,
            final(self).assignments@ == old(self).assignments@,
            final(self).categories@ == old(self).categories@,
            final(self).spam_scans@ == old(self).spam_scans@,
            final(self).spam_states@ == old(self).spam_states@,
            spec_cache_wf(*old(self)) ==> spec_cache_wf(*final(self)),
    {
        let prev = self.get_sync_state(folder);
        let clamped = match &prev {
            Some(s) => if s.highest_uid > highest_uid {
                s.highest_uid
            } else {
                highest_uid
            },
            None => highest_uid,
        };
        self.remove_sync_key(folder);
        let row = SyncState { folder: folder.to_owned(), last_sync: now, highest_uid: clamped };
        self.sync_states.push(row);
        proof {
            let w = spec_syncs_without(old(self).sync_states@, folder@);
            lemma_syncs_without_all_other(old(self).sync_states@, folder@);
            lemma_find_sync_miss(w, folder@);
            lemma_find_sync_push_hit(w, folder@, self.sync_states@.last());
            assert forall|f: Seq<char>| f != folder@ implies #[trigger] spec_find_sync(
                self.sync_states@,
                f,
            ) == spec_find_sync(old(self).sync_states@, f) by {
                lemma_find_sync_push_other(w, f, self.sync_states@.last());
                lemma_find_sync_without_other(old(self).sync_states@, folder@, f);
            }
        }
    }

    /// Index of the first assignment row with this key.
    fn find_asg_idx(&self, folder: &str, uid: u32) -> (r: Option<usize>)
        ensures
            match r {
                Some(i) => i < self.assignments@.len() && spec_find_asg(
                    self.assignments@,
                    folder@,
                    uid,
                ) == Some(self.assignments@[i as int]),
                None => spec_find_asg(self.assignments@, folder@, uid) is None,
            },
    {
        let mut i: usize = 0;
        while i < self.assignments.len()
            invariant
                i <= self.assignments@.len(),
                forall|k: int|
                    0 <= k < i ==> !spec_asg_key_is(#[trigger] self.assignments@[k], folder@, uid),
            decreases self.assignments@.len() - i,
        {
            let c = &self.assignments[i];
            if str_eq(c.folder.as_str(), folder) && c.uid == uid {
                proof {
                    lemma_find_asg_hit(self.assignments@, folder@, uid, i as int);
                }
                return Some(i);
            }
            i = i + 1;
        }
        proof {
            lemma_find_asg_miss(self.assignments@, folder@, uid);
        }
        None
    }

    /// The category assigned to a message, if any.
    pub fn get_email_category(&self, folder: &str, uid: u32) -> (r: Option<String>)
        ensures
            r matches Some(id) ==> spec_find_asg(self.assignments@, folder@, uid) matches Some(c)
                && c.category_id@ == id@,
            r is None ==> spec_find_asg(self.assignments@, folder@, uid) is None,
    {
        let mut i: usize = 0;
        while i < self.assignments.len()
            invariant
                i <= self.assignments@.len(),
                forall|k: int|
                    0 <= k < i ==> !spec_asg_key_is(#[trigger] self.assignments@[k], folder@, uid),
            decreases self.assignments@.len() - i,
        {
            let c = &self.assignments[i];
            if str_eq(c.folder.as_str(), folder) && c.uid == uid {
                proof {
                    lemma_find_asg_hit(self.assignments@, folder@, uid, i as int);
                }
                return Some(c.category_id.clone());
            }
            i = i + 1;
        }
        proof {
            lemma_find_asg_miss(self.assignments@, folder@, uid);
        }
        None
    }

    /// Assigns a category to a cached message. A user override is sticky: a
    /// later automatic assignment leaves it untouched (the override rule).
    /// Assigning to a message that is not cached is an error.
    pub fn set_email_category(
        &mut self,
        folder: &str,
        uid: u32,
        category_id: &str,
        confidence_hundredths: u32,
        is_user_override: bool,
        now: i64,
    ) -> (r: Result<(), String>)
        ensures
            r is Err ==> spec_find_email(old(self).emails@, folder@, uid) is None && *final(self)
                == *old(self),
            r is Ok ==> spec_find_email(old(self).emails@, folder@, uid) is Some,
            r is Ok && spec_asg_blocked(old(self).assignments@, folder@, uid, is_user_override)
                ==> *final(self) == *old(self),
            r is Ok && !spec_asg_blocked(old(self).assignments@, folder@, uid, is_user_override)
                ==> ({
                let c = final(self).assignments@.last();
                &&& final(self).assignments@ == spec_asgs_without(
                    old(self).assignments@,
                    folder@,
                    uid,
                ).push(c)
                &&& c.folder@ == folder@
                &&& c.uid == uid
                &&& c.category_id@ == category_id@
                &&& c.confidence_hundredths == confidence_hundredths
                &&& c.is_user_override == is_user_override
                &&& c.categorized_at == now
                &&& final(self).emails@ == old(self).emails@
                &&& final(self).attachments@ == old(self).attachments@
                &&& final(self).sync_states@ == old(self).sync_states@
                &&& final(self).categories@ == old(self).categories@
                &&& final(self).spam_scans@ == old(self).spam_scans@
                &&& final(self).spam_states@ == old(self).spam_states@
            }),
            spec_cache_wf(*old(self)) ==> spec_cache_wf(*final(self)),
    {
        if self.find_email_idx(folder, uid).is_none() {
            return Err("no such message in the cache".to_owned());
        }
        let blocked = match self.find_asg_idx(folder, uid) {
            Some(i) => self.assignments[i].is_user_override && !is_user_override,
            None => false,
        };
        if blocked {
            return Ok(());
        }
        self.remove_asg_key(folder, uid);
        let row = CategoryAssignment {
            folder: folder.to_owned(),
            uid,
            category_id: category_id.to_owned(),
            confidence_hundredths,
            is_user_override,
            categorized_at: now,
        };
        self.assignments.push(row);
        proof {
            if spec_cache_wf(*old(self)) {
                assert forall|j: int| 0 <= j < self.assignments@.len() implies spec_find_email(
                    self.emails@,
                    (#[trigger] self.assignments@[j]).folder@,
                    self.assignments@[j].uid,
                ) is Some by {
                    if j < self.assignments@.len() - 1 {
                        lemma_asgs_without_elem(old(self).assignments@, folder@, uid,
                            self.assignments@[j]);
                    }
                }
            }
        }
        Ok(())
    }
}

/// The email rows fresh enough to survive a retention sweep.
pub open spec fn spec_emails_fresh(rows: Seq<CachedEmail>, cutoff: int) -> Seq<CachedEmail> {
    rows.filter(|e: CachedEmail| e.cached_at >= cutoff)
}

/// The attachment rows whose message is still cached.
pub open spec fn spec_atts_referencing(
    rows: Seq<CachedAttachment>,
    emails: Seq<CachedEmail>,
) -> Seq<CachedAttachment> {
    rows.filter(|a: CachedAttachment| spec_find_email(emails, a.folder@, a.email_uid) is Some)
}

/// The assignment rows whose message is still cached.
pub open spec fn spec_asgs_referencing(
    rows: Seq<CategoryAssignment>,
    emails: Seq<CachedEmail>,
) -> Seq<CategoryAssignment> {
    rows.filter(|c: CategoryAssignment| spec_find_email(emails, c.folder@, c.uid) is Some)
}

/// The rows of one folder, in cache order.
pub open spec fn spec_folder_emails(rows: Seq<CachedEmail>, folder: Seq<char>) -> Seq<
    CachedEmail,
> {
    rows.filter(|e: CachedEmail| e.folder@ == folder)
}

/// Newest first by parsed date.
pub open spec fn spec_sorted_desc(rows: Seq<CachedEmail>) -> bool {
    forall|i: int, j: int|
        0 <= i < j < rows.len() ==> (#[trigger] rows[i]).date_timestamp >= (#[trigger] rows[j]).date_timestamp
}

/// A listed header carries exactly the row's summary fields; the flag slots a
/// header-only listing cannot know stay false.
pub open spec fn spec_header_of_row(h: EmailHeader, e: CachedEmail) -> bool {
    &&& h.uid == e.uid
    &&& h.subject == e.subject
    &&& h.from == e.from
    &&& h.to == e.to
    &&& h.date == e.date
    &&& h.is_read == e.is_read
    &&& h.has_attachments == e.has_attachments
    &&& !h.is_flagged
    &&& !h.is_answered
    &&& !h.is_draft
    &&& h.flags@ == Seq::<String>::empty()
}

impl EmailCache {
    /// Deletes rows cached before `now - days * 86400`, cascading to
    /// attachments and assignments; `days == 0` means unbounded retention and
    /// removes nothing (the retention rule). Returns how many messages left.
    pub fn cleanup_old_emails(&mut self, days: u32, now: i64) -> (r: usize)
        requires
            now >= 0,
        ensures
            days == 0 ==> *final(self) == *old(self) && r == 0,
            days > 0 ==> ({
                let cutoff = now - days * 86400;
                &&& final(self).emails@ == spec_emails_fresh(old(self).emails@, cutoff)
                &&& final(self).attachments@ == spec_atts_referencing(
                    old(self).attachments@,
                    final(self).emails@,
                )
                &&& final(self).assignments@ == spec_asgs_referencing(
                    old(self).assignments@,
                    final(self).emails@,
                )
                &&& final(self).spam_scans@ == spec_spams_referencing(
                    old(self).spam_scans@,
                    final(self).emails@,
                )
                &&& final(self).sync_states@ == old(self).sync_states@
                &&& final(self).categories@ == old(self).categories@
                &&& final(self).spam_states@ == old(self).spam_states@
                &&& r == old(self).emails@.len() - final(self).emails@.len()
            }),
            days == 0 ==> (spec_cache_wf(*old(self)) ==> spec_cache_wf(*final(self))),
            days > 0 ==> spec_cache_wf(*final(self)),
    {
        if days == 0 {
            return 0;
        }
        let cutoff: i64 = now - (days as i64) * 86400;
        let before = self.emails.len();

        let ghost orig_e = self.emails@;
        let mut i: usize = 0;
        let ghost mut gj: int = 0;
        proof {
            assert(orig_e.take(0) =~= Seq::<CachedEmail>::empty());
            reveal(Seq::filter);
            assert(self.emails@ =~= spec_emails_fresh(orig_e.take(gj), cutoff as int)
                + orig_e.skip(gj));
        }
        while i < self.emails.len()
            invariant
                0 <= gj <= orig_e.len(),
                i == spec_emails_fresh(orig_e.take(gj), cutoff as int).len(),
                self.emails@ == spec_emails_fresh(orig_e.take(gj), cutoff as int) + orig_e.skip(
                    gj,
                ),
                self.attachments@ == old(self).attachments@,
                self.assignments@ == old(self).assignments@,
                self.sync_states@ == old(self).sync_states@,
                self.categories@ == old(self).categories@,
                self.spam_scans@ == old(self).spam_scans@,
                self.spam_states@ == old(self).spam_states@,
                orig_e == old(self).emails@,
            decreases self.emails@.len() - i,
        {
            let ghost w = spec_emails_fresh(orig_e.take(gj), cutoff as int);
            proof {
                assert(self.emails@.len() == w.len() + orig_e.skip(gj).len());
                assert(gj < orig_e.len());
                assert(self.emails@[i as int] == orig_e.skip(gj)[0]);
                assert(orig_e.skip(gj)[0] == orig_e[gj]);
                assert(orig_e.take(gj + 1).drop_last() =~= orig_e.take(gj));
                assert(orig_e.take(gj + 1).last() == orig_e[gj]);
                reveal(Seq::filter);
            }
            if self.emails[i].cached_at < cutoff {
                self.emails.remove(i);
                proof {
                    assert(self.emails@ =~= w + orig_e.skip(gj + 1));
                }
            } else {
                proof {
                    assert(spec_emails_fresh(orig_e.take(gj + 1), cutoff as int) =~= w.push(
                        orig_e[gj],
                    ));
                    assert(self.emails@ =~= spec_emails_fresh(orig_e.take(gj + 1), cutoff as int)
                        + orig_e.skip(gj + 1));
                }
                i = i + 1;
            }
            proof {
                gj = gj + 1;
            }
        }
        proof {
            assert(orig_e.skip(gj) =~= Seq::<CachedEmail>::empty());
            assert(orig_e.take(gj) =~= orig_e);
            assert(self.emails@ =~= spec_emails_fresh(orig_e, cutoff as int));
            lemma_emails_fresh_len(orig_e, cutoff as int);
        }

        self.drop_orphan_rows();
        before - self.emails.len()
    }

    /// Removes attachment and assignment rows whose message is gone, restoring
    /// referential integrity.
    fn drop_orphan_rows(&mut self)
        ensures
            final(self).attachments@ == spec_atts_referencing(
                old(self).attachments@,
                old(self).emails@,
            ),
            final(self).assignments@ == spec_asgs_referencing(
                old(self).assignments@,
                old(self).emails@,
            ),
            final(self).spam_scans@ == spec_spams_referencing(
                old(self).spam_scans@,
                old(self).emails@,
            ),
            final(self).emails@ == old(self).emails@,
            final(self).sync_states@ == old(self).sync_states@,
            final(self).categories@ == old(self).categories@,
            final(self).spam_states@ == old(self).spam_states@,
            spec_cache_wf(*final(self)),
    {
        let ghost emails = self.emails@;
        let ghost orig_a = self.attachments@;
        let mut ia: usize = 0;
        let ghost mut ga: int = 0;
        proof {
            assert(orig_a.take(0) =~= Seq::<CachedAttachment>::empty());
            reveal(Seq::filter);
            assert(self.attachments@ =~= spec_atts_referencing(orig_a.take(ga), emails)
                + orig_a.skip(ga));
        }
        while ia < self.attachments.len()
            invariant
                0 <= ga <= orig_a.len(),
                ia == spec_atts_referencing(orig_a.take(ga), emails).len(),
                self.attachments@ == spec_atts_referencing(orig_a.take(ga), emails) + orig_a.skip(
                    ga,
                ),
                emails == self.emails@,
                self.emails@ == old(self).emails@,
                self.assignments@ == old(self).assignments@,
                self.sync_states@ == old(self).sync_states@,
                self.categories@ == old(self).categories@,
                self.spam_scans@ == old(self).spam_scans@,
                self.spam_states@ == old(self).spam_states@,
                orig_a == old(self).attachments@,
            decreases self.attachments@.len() - ia,
        {
            let ghost w = spec_atts_referencing(orig_a.take(ga), emails);
            proof {
                assert(self.attachments@.len() == w.len() + orig_a.skip(ga).len());
                assert(ga < orig_a.len());
                assert(self.attachments@[ia as int] == orig_a.skip(ga)[0]);
                assert(orig_a.skip(ga)[0] == orig_a[ga]);
                assert(orig_a.take(ga + 1).drop_last() =~= orig_a.take(ga));
                assert(orig_a.take(ga + 1).last() == orig_a[ga]);
                reveal(Seq::filter);
            }
            let referenced = {
                let a = &self.attachments[ia];
                find_row(&self.emails, &a.folder, a.email_uid)
            };
            if !referenced {
                self.attachments.remove(ia);
                proof {
                    assert(self.attachments@ =~= w + orig_a.skip(ga + 1));
                }
            } else {
                proof {
                    assert(spec_atts_referencing(orig_a.take(ga + 1), emails) =~= w.push(
                        orig_a[ga],
                    ));
                    assert(self.attachments@ =~= spec_atts_referencing(orig_a.take(ga + 1),
                        emails,
                    ) + orig_a.skip(ga + 1));
                }
                ia = ia + 1;
            }
            proof {
                ga = ga + 1;
            }
        }
        proof {
            assert(orig_a.skip(ga) =~= Seq::<CachedAttachment>::empty());
            assert(orig_a.take(ga) =~= orig_a);
            assert(self.attachments@ =~= spec_atts_referencing(orig_a, emails));
        }

        let ghost orig_c = self.assignments@;
        let mut ic: usize = 0;
        let ghost mut gc: int = 0;
        proof {
            assert(orig_c.take(0) =~= Seq::<CategoryAssignment>::empty());
            reveal(Seq::filter);
            assert(self.assignments@ =~= spec_asgs_referencing(orig_c.take(gc), emails)
                + orig_c.skip(gc));
        }
        while ic < self.assignments.len()
            invariant
                0 <= gc <= orig_c.len(),
                ic == spec_asgs_referencing(orig_c.take(gc), emails).len(),
                self.assignments@ == spec_asgs_referencing(orig_c.take(gc), emails) + orig_c.skip(
                    gc,
                ),
                emails == self.emails@,
                self.emails@ == old(self).emails@,
                self.attachments@ == spec_atts_referencing(old(self).attachments@, emails),
                self.sync_states@ == old(self).sync_states@,
                self.categories@ == old(self).categories@,
                self.spam_scans@ == old(self).spam_scans@,
                self.spam_states@ == old(self).spam_states@,
                orig_c == old(self).assignments@,
            decreases self.assignments@.len() - ic,
        {
            let ghost w = spec_asgs_referencing(orig_c.take(gc), emails);
            proof {
                assert(self.assignments@.len() == w.len() + orig_c.skip(gc).len());
                assert(gc < orig_c.len());
                assert(self.assignments@[ic as int] == orig_c.skip(gc)[0]);
                assert(orig_c.skip(gc)[0] == orig_c[gc]);
                assert(orig_c.take(gc + 1).drop_last() =~= orig_c.take(gc));
                assert(orig_c.take(gc + 1).last() == orig_c[gc]);
                reveal(Seq::filter);
            }
            let referenced = {
                let c = &self.assignments[ic];
                find_row(&self.emails, &c.folder, c.uid)
            };
            if !referenced {
                self.assignments.remove(ic);
                proof {
                    assert(self.assignments@ =~= w + orig_c.skip(gc + 1));
                }
            } else {
                proof {
                    assert(spec_asgs_referencing(orig_c.take(gc + 1), emails) =~= w.push(
                        orig_c[gc],
                    ));
                    assert(self.assignments@ =~= spec_asgs_referencing(orig_c.take(gc + 1),
                        emails,
                    ) + orig_c.skip(gc + 1));
                }
                ic = ic + 1;
            }
            proof {
                gc = gc + 1;
            }
        }
        let ghost orig_s = self.spam_scans@;
        let mut is_: usize = 0;
        let ghost mut gs: int = 0;
        proof {
            assert(orig_c.skip(gc) =~= Seq::<CategoryAssignment>::empty());
            assert(orig_c.take(gc) =~= orig_c);
            assert(self.assignments@ =~= spec_asgs_referencing(orig_c, emails));
            assert(orig_s.take(0) =~= Seq::<SpamScan>::empty());
            reveal(Seq::filter);
            assert(self.spam_scans@ =~= spec_spams_referencing(orig_s.take(gs), emails)
                + orig_s.skip(gs));
        }
        while is_ < self.spam_scans.len()
            invariant
                0 <= gs <= orig_s.len(),
                is_ == spec_spams_referencing(orig_s.take(gs), emails).len(),
                self.spam_scans@ == spec_spams_referencing(orig_s.take(gs), emails) + orig_s.skip(
                    gs,
                ),
                emails == self.emails@,
                self.emails@ == old(self).emails@,
                self.attachments@ == spec_atts_referencing(old(self).attachments@, emails),
                self.assignments@ == spec_asgs_referencing(old(self).assignments@, emails),
                self.sync_states@ == old(self).sync_states@,
                self.categories@ == old(self).categories@,
                self.spam_states@ == old(self).spam_states@,
                orig_s == old(self).spam_scans@,
            decreases self.spam_scans@.len() - is_,
        {
            let ghost w = spec_spams_referencing(orig_s.take(gs), emails);
            proof {
                assert(self.spam_scans@.len() == w.len() + orig_s.skip(gs).len());
                assert(gs < orig_s.len());
                assert(self.spam_scans@[is_ as int] == orig_s.skip(gs)[0]);
                assert(orig_s.skip(gs)[0] == orig_s[gs]);
                assert(orig_s.take(gs + 1).drop_last() =~= orig_s.take(gs));
                assert(orig_s.take(gs + 1).last() == orig_s[gs]);
                reveal(Seq::filter);
            }
            let referenced = {
                let x = &self.spam_scans[is_];
                find_row(&self.emails, &x.folder, x.uid)
            };
            if !referenced {
                self.spam_scans.remove(is_);
                proof {
                    assert(self.spam_scans@ =~= w + orig_s.skip(gs + 1));
                }
            } else {
                proof {
                    assert(spec_spams_referencing(orig_s.take(gs + 1), emails) =~= w.push(
                        orig_s[gs],
                    ));
                    assert(self.spam_scans@ =~= spec_spams_referencing(orig_s.take(gs + 1),
                        emails,
                    ) + orig_s.skip(gs + 1));
                }
                is_ = is_ + 1;
            }
            proof {
                gs = gs + 1;
            }
        }
        proof {
            assert(orig_s.skip(gs) =~= Seq::<SpamScan>::empty());
            assert(orig_s.take(gs) =~= orig_s);
            assert(self.spam_scans@ =~= spec_spams_referencing(orig_s, emails));
            assert forall|j: int| 0 <= j < self.spam_scans@.len() implies spec_find_email(
                self.emails@,
                (#[trigger] self.spam_scans@[j]).folder@,
                self.spam_scans@[j].uid,
            ) is Some by {
                assert(spec_spams_referencing(orig_s, emails).contains(self.spam_scans@[j])) by {
                    assert(spec_spams_referencing(orig_s, emails)[j] == self.spam_scans@[j]);
                }
                lemma_spams_referencing_elem(orig_s, emails, self.spam_scans@[j]);
            }
            assert forall|j: int| 0 <= j < self.attachments@.len() implies spec_find_email(
                self.emails@,
                (#[trigger] self.attachments@[j]).folder@,
                self.attachments@[j].email_uid,
            ) is Some by {
                assert(spec_atts_referencing(orig_a, emails).contains(self.attachments@[j])) by {
                    assert(spec_atts_referencing(orig_a, emails)[j] == self.attachments@[j]);
                }
                lemma_atts_referencing_elem(orig_a, emails, self.attachments@[j]);
            }
            assert forall|j: int| 0 <= j < self.assignments@.len() implies spec_find_email(
                self.emails@,
                (#[trigger] self.assignments@[j]).folder@,
                self.assignments@[j].uid,
            ) is Some by {
                assert(spec_asgs_referencing(orig_c, emails).contains(self.assignments@[j])) by {
                    assert(spec_asgs_referencing(orig_c, emails)[j] == self.assignments@[j]);
                }
                lemma_asgs_referencing_elem(orig_c, emails, self.assignments@[j]);
            }
        }
    }

    /// Empties the cache: messages, attachments, assignments and watermarks;
    /// the category definitions stay.
    pub fn clear(&mut self)
        ensures
            final(self).emails@.len() == 0,
            final(self).attachments@.len() == 0,
            final(self).assignments@.len() == 0,
            final(self).sync_states@.len() == 0,
            final(self).spam_scans@.len() == 0,
            final(self).spam_states@.len() == 0,
            final(self).categories@ == old(self).categories@,
            spec_cache_wf(*final(self)),
    {
        self.emails = Vec::new();
        self.attachments = Vec::new();
        self.assignments = Vec::new();
        self.sync_states = Vec::new();
        self.spam_scans = Vec::new();
        self.spam_states = Vec::new();
    }
}

/// Whether a header row with the key exists in the given table.
fn find_row(emails: &Vec<CachedEmail>, folder: &String, uid: u32) -> (r: bool)
    ensures
        r == (spec_find_email(emails@, folder@, uid) is Some),
{
    let mut i: usize = 0;
    while i < emails.len()
        invariant
            i <= emails@.len(),
            forall|k: int| 0 <= k < i ==> !spec_email_key_is(#[trigger] emails@[k], folder@, uid),
        decreases emails@.len() - i,
    {
        let e = &emails[i];
        if str_eq(e.folder.as_str(), folder.as_str()) && e.uid == uid {
            proof {
                lemma_find_email_hit(emails@, folder@, uid, i as int);
            }
            return true;
        }
        i = i + 1;
    }
    proof {
        lemma_find_email_miss(emails@, folder@, uid);
    }
    false
}

proof fn lemma_emails_fresh_len(rows: Seq<CachedEmail>, cutoff: int)
    ensures
        spec_emails_fresh(rows, cutoff).len() <= rows.len(),
    decreases rows.len(),
{
    reveal(Seq::filter);
    if rows.len() > 0 {
        lemma_emails_fresh_len(rows.drop_last(), cutoff);
    }
}

/// A kept attachment row references a live message.
proof fn lemma_atts_referencing_elem(
    s: Seq<CachedAttachment>,
    emails: Seq<CachedEmail>,
    x: CachedAttachment,
)
    requires
        spec_atts_referencing(s, emails).contains(x),
    ensures
        spec_find_email(emails, x.folder@, x.email_uid) is Some,
    decreases s.len(),
{
    reveal(Seq::filter);
    if s.len() > 0 {
        let f = spec_atts_referencing(s, emails);
        let fd = spec_atts_referencing(s.drop_last(), emails);
        if spec_find_email(emails, s.last().folder@, s.last().email_uid) is Some && x
            == s.last() {
        } else {
            assert(fd.contains(x)) by {
                let k = choose|k: int| 0 <= k < f.len() && f[k] == x;
                if spec_find_email(emails, s.last().folder@, s.last().email_uid) is Some {
                    assert(f == fd.push(s.last()));
                    assert(k < fd.len());
                    assert(fd[k] == x);
                } else {
                    assert(f == fd);
                }
            }
            lemma_atts_referencing_elem(s.drop_last(), emails, x);
        }
    }
}

/// A kept spam verdict references a live message.
proof fn lemma_spams_referencing_elem(s: Seq<SpamScan>, emails: Seq<CachedEmail>, x: SpamScan)
    requires
        spec_spams_referencing(s, emails).contains(x),
    ensures
        spec_find_email(emails, x.folder@, x.uid) is Some,
    decreases s.len(),
{
    reveal(Seq::filter);
    if s.len() > 0 {
        let f = spec_spams_referencing(s, emails);
        let fd = spec_spams_referencing(s.drop_last(), emails);
        if spec_find_email(emails, s.last().folder@, s.last().uid) is Some && x == s.last() {
        } else {
            assert(fd.contains(x)) by {
                let k = choose|k: int| 0 <= k < f.len() && f[k] == x;
                if spec_find_email(emails, s.last().folder@, s.last().uid) is Some {
                    assert(f == fd.push(s.last()));
                    assert(k < fd.len());
                    assert(fd[k] == x);
                } else {
                    assert(f == fd);
                }
            }
            lemma_spams_referencing_elem(s.drop_last(), emails, x);
        }
    }
}

/// A kept assignment row references a live message.
proof fn lemma_asgs_referencing_elem(
    s: Seq<CategoryAssignment>,
    emails: Seq<CachedEmail>,
    x: CategoryAssignment,
)
    requires
        spec_asgs_referencing(s, emails).contains(x),
    ensures
        spec_find_email(emails, x.folder@, x.uid) is Some,
    decreases s.len(),
{
    reveal(Seq::filter);
    if s.len() > 0 {
        let f = spec_asgs_referencing(s, emails);
        let fd = spec_asgs_referencing(s.drop_last(), emails);
        if spec_find_email(emails, s.last().folder@, s.last().uid) is Some && x == s.last() {
        } else {
            assert(fd.contains(x)) by {
                let k = choose|k: int| 0 <= k < f.len() && f[k] == x;
                if spec_find_email(emails, s.last().folder@, s.last().uid) is Some {
                    assert(f == fd.push(s.last()));
                    assert(k < fd.len());
                    assert(fd[k] == x);
                } else {
                    assert(f == fd);
                }
            }
            lemma_asgs_referencing_elem(s.drop_last(), emails, x);
        }
    }
}

/// Whether a fresh assignment is blocked by a sticky user override.
pub open spec fn spec_asg_blocked(
    rows: Seq<CategoryAssignment>,
    folder: Seq<char>,
    uid: u32,
    is_user_override: bool,
) -> bool {
    match spec_find_asg(rows, folder, uid) {
        Some(c) => c.is_user_override && !is_user_override,
        None => false,
    }
}

/// The watermark value stored by an update: the maximum of the old value (0
/// when the folder has none) and the new one.
pub open spec fn spec_clamped_uid(rows: Seq<SyncState>, folder: Seq<char>, u: u32) -> u32 {
    match spec_find_sync(rows, folder) {
        Some(s) => if s.highest_uid > u {
            s.highest_uid
        } else {
            u
        },
        None => u,
    }
}

/// Two rows agree on everything but the body fields, and the new row carries
/// the given bodies.
pub open spec fn spec_body_updated(
    e_new: CachedEmail,
    e_old: CachedEmail,
    text: Seq<char>,
    html: Seq<char>,
) -> bool {
    &&& e_new.body_text@ == text
    &&& e_new.body_html@ == html
    &&& e_new.folder == e_old.folder
    &&& e_new.uid == e_old.uid
    &&& e_new.subject == e_old.subject
    &&& e_new.from == e_old.from
    &&& e_new.to == e_old.to
    &&& e_new.cc == e_old.cc
    &&& e_new.date == e_old.date
    &&& e_new.date_timestamp == e_old.date_timestamp
    &&& e_new.is_read == e_old.is_read
    &&& e_new.has_attachments == e_old.has_attachments
    &&& e_new.cached_at == e_old.cached_at
}

/// A header row after its read flag changes.
pub open spec fn spec_with_read(e: CachedEmail, is_read: bool) -> CachedEmail {
    CachedEmail { is_read, ..e }
}

/// The row written by `store_header`.
pub open spec fn spec_stored_header_row(
    row: CachedEmail,
    folder: Seq<char>,
    header: EmailHeader,
    date_timestamp: i64,
    now: i64,
) -> bool {
    &&& row.folder@ == folder
    &&& row.uid == header.uid
    &&& row.subject == header.subject
    &&& row.from == header.from
    &&& row.to == header.to
    &&& row.cc@ == Seq::<char>::empty()
    &&& row.date == header.date
    &&& row.date_timestamp == date_timestamp
    &&& row.is_read == header.is_read
    &&& row.has_attachments == header.has_attachments
    &&& row.body_text@ == Seq::<char>::empty()
    &&& row.body_html@ == Seq::<char>::empty()
    &&& row.cached_at == now
}

/// No later entry of the batch reuses this entry's uid: this one's write is
/// the one that survives the batch.
pub open spec fn spec_last_with_uid(headers: Seq<EmailHeader>, i: int) -> bool {
    forall|j: int| i < j < headers.len() ==> (#[trigger] headers[j]).uid != headers[i].uid
}

/// The table holds this header: some row carries its key, and every row that
/// does holds exactly its stored fields.
pub open spec fn spec_rows_hold_header(
    rows: Seq<CachedEmail>,
    folder: Seq<char>,
    header: EmailHeader,
    date_timestamp: i64,
    now: i64,
) -> bool {
    &&& exists|m: int|
        0 <= m < rows.len() && spec_email_key_is(#[trigger] rows[m], folder, header.uid)
    &&& forall|m: int|
        0 <= m < rows.len() && spec_email_key_is(#[trigger] rows[m], folder, header.uid)
            ==> spec_stored_header_row(rows[m], folder, header, date_timestamp, now)
}

/// Lookups keyed the same way answer the same in two tables whose rows agree
/// on keys position by position.
proof fn lemma_find_same_keys(a: Seq<CachedEmail>, b: Seq<CachedEmail>, f: Seq<char>, u: u32)
    requires
        a.len() == b.len(),
        forall|i: int|
            0 <= i < a.len() ==> (#[trigger] b[i]).folder@ == a[i].folder@ && b[i].uid == a[i].uid,
        spec_find_email(a, f, u) is Some,
    ensures
        spec_find_email(b, f, u) is Some,
    decreases a.len(),
{
    if a.len() > 0 {
        if spec_email_key_is(a[0], f, u) {
            assert(spec_email_key_is(b[0], f, u));
        } else {
            assert forall|i: int| 0 <= i < a.drop_first().len() implies (#[trigger] b.drop_first()[
                i]).folder@ == a.drop_first()[i].folder@ && b.drop_first()[i].uid
                == a.drop_first()[i].uid by {
                assert(a.drop_first()[i] == a[i + 1]);
                assert(b.drop_first()[i] == b[i + 1]);
            }
            lemma_find_same_keys(a.drop_first(), b.drop_first(), f, u);
        }
    }
}

/// Upserting a key keeps referential integrity.
proof fn lemma_wf_after_upsert(pre: EmailCache, post: EmailCache, folder: Seq<char>, uid: u32)
    requires
        spec_cache_wf(pre),
        post.emails@ == spec_emails_without(pre.emails@, folder, uid).push(post.emails@.last()),
        spec_email_key_is(post.emails@.last(), folder, uid),
        post.attachments@ == pre.attachments@,
        post.assignments@ == pre.assignments@,
        post.spam_scans@ == pre.spam_scans@,
    ensures
        spec_cache_wf(post),
{
    let w = spec_emails_without(pre.emails@, folder, uid);
    let row = post.emails@.last();
    assert forall|i: int| 0 <= i < post.attachments@.len() implies spec_find_email(
        post.emails@,
        (#[trigger] post.attachments@[i]).folder@,
        post.attachments@[i].email_uid,
    ) is Some by {
        let a = post.attachments@[i];
        if a.folder@ == folder && a.email_uid == uid {
            lemma_find_email_of_contained_at(post.emails@, folder, uid, post.emails@.len() - 1);
        } else {
            lemma_find_filter_other(pre.emails@, a.folder@, a.email_uid, folder, uid);
            lemma_find_push_keeps(w, a.folder@, a.email_uid, row);
        }
    }
    assert forall|i: int| 0 <= i < post.assignments@.len() implies spec_find_email(
        post.emails@,
        (#[trigger] post.assignments@[i]).folder@,
        post.assignments@[i].uid,
    ) is Some by {
        let c = post.assignments@[i];
        if c.folder@ == folder && c.uid == uid {
            lemma_find_email_of_contained_at(post.emails@, folder, uid, post.emails@.len() - 1);
        } else {
            lemma_find_filter_other(pre.emails@, c.folder@, c.uid, folder, uid);
            lemma_find_push_keeps(w, c.folder@, c.uid, row);
        }
    }
    assert forall|i: int| 0 <= i < post.spam_scans@.len() implies spec_find_email(
        post.emails@,
        (#[trigger] post.spam_scans@[i]).folder@,
        post.spam_scans@[i].uid,
    ) is Some by {
        let x = post.spam_scans@[i];
        if x.folder@ == folder && x.uid == uid {
            lemma_find_email_of_contained_at(post.emails@, folder, uid, post.emails@.len() - 1);
        } else {
            lemma_find_filter_other(pre.emails@, x.folder@, x.uid, folder, uid);
            lemma_find_push_keeps(w, x.folder@, x.uid, row);
        }
    }
}

/// A lookup that succeeds still succeeds after a push.
proof fn lemma_find_push_keeps(w: Seq<CachedEmail>, f: Seq<char>, u: u32, r: CachedEmail)
    requires
        spec_find_email(w, f, u) is Some,
    ensures
        spec_find_email(w.push(r), f, u) is Some,
    decreases w.len(),
{
    if w.len() > 0 {
        if !spec_email_key_is(w[0], f, u) {
            lemma_find_push_keeps(w.drop_first(), f, u, r);
            assert(w.push(r).drop_first() =~= w.drop_first().push(r));
        }
    }
}

/// A table holding a key-matching row at a known index answers that key.
proof fn lemma_find_email_of_contained_at(rows: Seq<CachedEmail>, f: Seq<char>, u: u32, i: int)
    requires
        0 <= i < rows.len(),
        spec_email_key_is(rows[i], f, u),
    ensures
        spec_find_email(rows, f, u) is Some,
    decreases i,
{
    if !spec_email_key_is(rows[0], f, u) {
        assert(rows.drop_first()[i - 1] == rows[i]);
        lemma_find_email_of_contained_at(rows.drop_first(), f, u, i - 1);
    }
}

proof fn lemma_find_sync_hit(rows: Seq<SyncState>, folder: Seq<char>, i: int)
    requires
        0 <= i < rows.len(),
        rows[i].folder@ == folder,
        forall|k: int| 0 <= k < i ==> (#[trigger] rows[k]).folder@ != folder,
    ensures
        spec_find_sync(rows, folder) == Some(rows[i]),
    decreases rows.len(),
{
    if i > 0 {
        lemma_find_sync_hit(rows.drop_first(), folder, i - 1);
    }
}

proof fn lemma_find_sync_miss(rows: Seq<SyncState>, folder: Seq<char>)
    requires
        forall|k: int| 0 <= k < rows.len() ==> (#[trigger] rows[k]).folder@ != folder,
    ensures
        spec_find_sync(rows, folder) is None,
    decreases rows.len(),
{
    if rows.len() > 0 {
        lemma_find_sync_miss(rows.drop_first(), folder);
    }
}

/// Every row kept by the removal names another folder.
proof fn lemma_syncs_without_all_other(rows: Seq<SyncState>, folder: Seq<char>)
    ensures
        forall|k: int|
            0 <= k < spec_syncs_without(rows, folder).len() ==> (#[trigger] spec_syncs_without(
                rows,
                folder,
            )[k]).folder@ != folder,
{
    rows.filter_lemma(|s: SyncState| s.folder@ != folder);
}

proof fn lemma_find_sync_push_hit(w: Seq<SyncState>, folder: Seq<char>, r: SyncState)
    requires
        spec_find_sync(w, folder) is None,
        r.folder@ == folder,
    ensures
        spec_find_sync(w.push(r), folder) == Some(r),
    decreases w.len(),
{
    if w.len() == 0 {
        assert(w.push(r)[0] == r);
    } else {
        assert(w.push(r)[0] == w[0]);
        assert(w.push(r).drop_first() =~= w.drop_first().push(r));
        lemma_find_sync_push_hit(w.drop_first(), folder, r);
    }
}

proof fn lemma_find_sync_push_other(w: Seq<SyncState>, f: Seq<char>, r: SyncState)
    requires
        r.folder@ != f,
    ensures
        spec_find_sync(w.push(r), f) == spec_find_sync(w, f),
    decreases w.len(),
{
    if w.len() == 0 {
        assert(w.push(r).len() == 1);
        assert(w.push(r)[0] == r);
        assert(w.push(r).drop_first() =~= Seq::<SyncState>::empty());
        assert(spec_find_sync(Seq::<SyncState>::empty(), f) is None);
        assert(spec_find_sync(w.push(r), f) is None);
    } else {
        assert(w.push(r)[0] == w[0]);
        assert(w.push(r).drop_first() =~= w.drop_first().push(r));
        lemma_find_sync_push_other(w.drop_first(), f, r);
        if w[0].folder@ == f {
            assert(spec_find_sync(w.push(r), f) == Some(w[0]));
            assert(spec_find_sync(w, f) == Some(w[0]));
        } else {
            assert(spec_find_sync(w.push(r), f) == spec_find_sync(w.drop_first().push(r), f));
            assert(spec_find_sync(w, f) == spec_find_sync(w.drop_first(), f));
        }
    }
}

/// Removing one folder's row leaves other folders' lookups unchanged.
proof fn lemma_find_sync_without_other(rows: Seq<SyncState>, removed: Seq<char>, f: Seq<char>)
    requires
        f != removed,
    ensures
        spec_find_sync(spec_syncs_without(rows, removed), f) == spec_find_sync(rows, f),
    decreases rows.len(),
{
    reveal(Seq::filter);
    if rows.len() > 0 {
        lemma_find_sync_without_other(rows.drop_last(), removed, f);
        let w = spec_syncs_without(rows, removed);
        let wd = spec_syncs_without(rows.drop_last(), removed);
        if rows.last().folder@ != removed {
            assert(w == wd.push(rows.last()));
            lemma_find_sync_split(wd, rows.last(), f);
            lemma_find_sync_split_orig(rows, f);
        } else {
            assert(w == wd);
            lemma_find_sync_split_orig(rows, f);
            assert(rows.last().folder@ != f);
        }
    }
}

/// A lookup over `s.push(r)` is the lookup over `s`, falling back to `r`.
proof fn lemma_find_sync_split(s: Seq<SyncState>, r: SyncState, f: Seq<char>)
    ensures
        spec_find_sync(s.push(r), f) == (match spec_find_sync(s, f) {
            Some(x) => Some(x),
            None => if r.folder@ == f {
                Some(r)
            } else {
                None
            },
        }),
    decreases s.len(),
{
    if s.len() == 0 {
        assert(s.push(r).len() == 1);
        assert(s.push(r)[0] == r);
        assert(s.push(r).drop_first() =~= Seq::<SyncState>::empty());
        assert(spec_find_sync(Seq::<SyncState>::empty(), f) is None);
        assert(spec_find_sync(s, f) is None);
    } else {
        assert(s.push(r)[0] == s[0]);
        assert(s.push(r).drop_first() =~= s.drop_first().push(r));
        lemma_find_sync_split(s.drop_first(), r, f);
    }
}

/// A lookup over a nonempty table splits off its last row.
proof fn lemma_find_sync_split_orig(rows: Seq<SyncState>, f: Seq<char>)
    requires
        rows.len() > 0,
    ensures
        spec_find_sync(rows, f) == (match spec_find_sync(rows.drop_last(), f) {
            Some(x) => Some(x),
            None => if rows.last().folder@ == f {
                Some(rows.last())
            } else {
                None
            },
        }),
{
    assert(rows =~= rows.drop_last().push(rows.last()));
    lemma_find_sync_split(rows.drop_last(), rows.last(), f);
}

proof fn lemma_find_asg_hit(rows: Seq<CategoryAssignment>, folder: Seq<char>, uid: u32, i: int)
    requires
        0 <= i < rows.len(),
        spec_asg_key_is(rows[i], folder, uid),
        forall|k: int| 0 <= k < i ==> !spec_asg_key_is(#[trigger] rows[k], folder, uid),
    ensures
        spec_find_asg(rows, folder, uid) == Some(rows[i]),
    decreases rows.len(),
{
    if i > 0 {
        lemma_find_asg_hit(rows.drop_first(), folder, uid, i - 1);
    }
}

proof fn lemma_find_asg_miss(rows: Seq<CategoryAssignment>, folder: Seq<char>, uid: u32)
    requires
        forall|k: int| 0 <= k < rows.len() ==> !spec_asg_key_is(#[trigger] rows[k], folder, uid),
    ensures
        spec_find_asg(rows, folder, uid) is None,
    decreases rows.len(),
{
    if rows.len() > 0 {
        lemma_find_asg_miss(rows.drop_first(), folder, uid);
    }
}

/// A table holding some row with the key answers lookups of that key.
proof fn lemma_find_email_of_contained(rows: Seq<CachedEmail>, f: Seq<char>, u: u32)
    requires
        exists|i: int| 0 <= i < rows.len() && spec_email_key_is(#[trigger] rows[i], f, u),
    ensures
        spec_find_email(rows, f, u) is Some,
    decreases rows.len(),
{
    if !spec_email_key_is(rows[0], f, u) {
        let i = choose|i: int| 0 <= i < rows.len() && spec_email_key_is(#[trigger] rows[i], f, u);
        assert(spec_email_key_is(rows.drop_first()[i - 1], f, u));
        lemma_find_email_of_contained(rows.drop_first(), f, u);
    }
}

proof fn lemma_find_email_hit(rows: Seq<CachedEmail>, folder: Seq<char>, uid: u32, i: int)
    requires
        0 <= i < rows.len(),
        spec_email_key_is(rows[i], folder, uid),
        forall|k: int| 0 <= k < i ==> !spec_email_key_is(#[trigger] rows[k], folder, uid),
    ensures
        spec_find_email(rows, folder, uid) == Some(rows[i]),
    decreases rows.len(),
{
    if i > 0 {
        lemma_find_email_hit(rows.drop_first(), folder, uid, i - 1);
    }
}

proof fn lemma_find_email_miss(rows: Seq<CachedEmail>, folder: Seq<char>, uid: u32)
    requires
        forall|k: int| 0 <= k < rows.len() ==> !spec_email_key_is(#[trigger] rows[k], folder, uid),
    ensures
        spec_find_email(rows, folder, uid) is None,
    decreases rows.len(),
{
    if rows.len() > 0 {
        lemma_find_email_miss(rows.drop_first(), folder, uid);
    }
}


/// The monotonic-watermark law: after two consecutive watermark updates on a
/// fresh folder, first with `u1` and then with `u2`, a read returns
/// `max(u1, u2)` — the second update clamps rather than overwrites.
pub proof fn lemma_watermark_two_updates(
    rows0: Seq<SyncState>,
    rows1: Seq<SyncState>,
    folder: Seq<char>,
    u1: u32,
    u2: u32,
)
    requires
        spec_find_sync(rows0, folder) is None,
        spec_find_sync(rows1, folder) matches Some(s) && s.highest_uid == spec_clamped_uid(
            rows0,
            folder,
            u1,
        ),
    ensures
        spec_clamped_uid(rows1, folder, u2) == (if u1 > u2 {
            u1
        } else {
            u2
        }),
{
}

/// The sticky-override law: once a message carries a user-chosen category,
/// any later automatic assignment is blocked, whatever it proposes.
pub proof fn lemma_override_sticky(rows: Seq<CategoryAssignment>, folder: Seq<char>, uid: u32)
    requires
        spec_find_asg(rows, folder, uid) matches Some(c) && c.is_user_override,
    ensures
        spec_asg_blocked(rows, folder, uid, false),
        !spec_asg_blocked(rows, folder, uid, true),
{
}

/// The retention law: a sweep keeps exactly the rows cached at or after the
/// cutoff, each in its old position order.
pub proof fn lemma_retention_exact(rows: Seq<CachedEmail>, cutoff: int)
    ensures
        forall|i: int|
            0 <= i < spec_emails_fresh(rows, cutoff).len() ==> (#[trigger] spec_emails_fresh(
                rows,
                cutoff,
            )[i]).cached_at >= cutoff,
        forall|i: int|
            0 <= i < rows.len() && (#[trigger] rows[i]).cached_at >= cutoff
                ==> spec_emails_fresh(rows, cutoff).contains(rows[i]),
{
    rows.filter_lemma(|e: CachedEmail| e.cached_at >= cutoff);
}

/// The delete-cascade law: removing a message leaves no attachment row and no
/// assignment row with its key behind.
pub proof fn lemma_delete_cascades(
    atts: Seq<CachedAttachment>,
    asgs: Seq<CategoryAssignment>,
    folder: Seq<char>,
    uid: u32,
)
    ensures
        forall|i: int|
            0 <= i < spec_atts_without(atts, folder, uid).len() ==> !spec_att_key_is(
                #[trigger] spec_atts_without(atts, folder, uid)[i],
                folder,
                uid,
            ),
        forall|i: int|
            0 <= i < spec_asgs_without(asgs, folder, uid).len() ==> !spec_asg_key_is(
                #[trigger] spec_asgs_without(asgs, folder, uid)[i],
                folder,
                uid,
            ),
{
    atts.filter_lemma(|a: CachedAttachment| !spec_att_key_is(a, folder, uid));
    asgs.filter_lemma(|c: CategoryAssignment| !spec_asg_key_is(c, folder, uid));
}


fn copy_email(e: &CachedEmail) -> (r: CachedEmail)
    ensures
        r == *e,
{
    CachedEmail {
        folder: e.folder.clone(),
        uid: e.uid,
        subject: e.subject.clone(),
        from: e.from.clone(),
        to: e.to.clone(),
        cc: e.cc.clone(),
        date: e.date.clone(),
        date_timestamp: e.date_timestamp,
        is_read: e.is_read,
        has_attachments: e.has_attachments,
        body_text: e.body_text.clone(),
        body_html: e.body_html.clone(),
        cached_at: e.cached_at,
    }
}

/// Sorts rows newest first by parsed date, keeping the multiset of rows.
fn sort_rows_desc(rows: Vec<CachedEmail>) -> (r: Vec<CachedEmail>)
    ensures
        spec_sorted_desc(r@),
        r@.to_multiset() == rows@.to_multiset(),
{
    let ghost orig = rows@;
    let mut src = rows;
    let mut out: Vec<CachedEmail> = Vec::new();
    proof {
        broadcast use vstd::seq_lib::group_to_multiset_ensures;

        assert(out@ =~= Seq::<CachedEmail>::empty());
        assert(out@.to_multiset().len() == 0);
        assert(out@.to_multiset() =~= vstd::multiset::Multiset::empty());
        assert(out@.to_multiset().add(src@.to_multiset()) =~= orig.to_multiset());
    }
    while src.len() > 0
        invariant
            spec_sorted_desc(out@),
            out@.to_multiset().add(src@.to_multiset()) == orig.to_multiset(),
            forall|i: int, j: int|
                0 <= i < out@.len() && 0 <= j < src@.len() ==> (#[trigger] out@[i]).date_timestamp
                    >= (#[trigger] src@[j]).date_timestamp,
        decreases src@.len(),
    {
        // pick the newest remaining row
        let mut best: usize = 0;
        let mut k: usize = 1;
        while k < src.len()
            invariant
                best < src@.len(),
                k <= src@.len(),
                forall|j: int|
                    0 <= j < k ==> src@[best as int].date_timestamp >= (#[trigger] src@[j]).date_timestamp,
            decreases src@.len() - k,
        {
            if src[k].date_timestamp > src[best].date_timestamp {
                best = k;
            }
            k = k + 1;
        }
        let ghost pre_src = src@;
        let ghost pre_out = out@;
        let row = src.remove(best);
        out.push(row);
        proof {
            vstd::seq_lib::to_multiset_remove::<CachedEmail>(pre_src, best as int);
            vstd::seq_lib::to_multiset_build::<CachedEmail>(pre_out, pre_src[best as int]);
            assert(out@.to_multiset() =~= pre_out.to_multiset().insert(pre_src[best as int]));
            assert(src@.to_multiset() =~= pre_src.to_multiset().remove(pre_src[best as int]));
            assert(pre_src.to_multiset().contains(pre_src[best as int])) by {
                broadcast use vstd::seq_lib::group_to_multiset_ensures;

                assert(pre_src.contains(pre_src[best as int]));
            }
            assert(out@.to_multiset().add(src@.to_multiset()) =~= orig.to_multiset());
            assert forall|i: int, j: int|
                0 <= i < out@.len() && 0 <= j < src@.len() implies (#[trigger] out@[i]).date_timestamp
                >= (#[trigger] src@[j]).date_timestamp by {
                if i < out@.len() - 1 {
                    assert(out@[i] == pre_out[i]);
                }
                assert(src@[j] == pre_src.remove(best as int)[j]);
                if j < best {
                    assert(pre_src.remove(best as int)[j] == pre_src[j]);
                } else {
                    assert(pre_src.remove(best as int)[j] == pre_src[j + 1]);
                }
            }
            assert forall|i: int, j: int| 0 <= i < j < out@.len() implies (#[trigger] out@[i]).date_timestamp
                >= (#[trigger] out@[j]).date_timestamp by {
                if j < out@.len() - 1 {
                    assert(out@[i] == pre_out[i]);
                    assert(out@[j] == pre_out[j]);
                } else if i < out@.len() - 1 {
                    assert(out@[i] == pre_out[i]);
                    assert(out@[j] == pre_src[best as int]);
                }
            }
        }
    }
    proof {
        broadcast use vstd::seq_lib::group_to_multiset_ensures;

        assert(src@.to_multiset().len() == 0);
        assert(src@.to_multiset() =~= vstd::multiset::Multiset::empty());
        assert(out@.to_multiset().add(src@.to_multiset()) =~= out@.to_multiset());
    }
    out
}

impl EmailCache {
    /// The rows of one folder, as owned copies in cache order.
    fn folder_rows(&self, folder: &str) -> (r: Vec<CachedEmail>)
        ensures
            r@ == spec_folder_emails(self.emails@, folder@),
    {
        let mut out: Vec<CachedEmail> = Vec::new();
        let mut i: usize = 0;
        proof {
            reveal(Seq::filter);
            assert(out@ =~= spec_folder_emails(self.emails@.take(0), folder@));
        }
        while i < self.emails.len()
            invariant
                i <= self.emails@.len(),
                out@ == spec_folder_emails(self.emails@.take(i as int), folder@),
            decreases self.emails@.len() - i,
        {
            proof {
                reveal(Seq::filter);
                assert(self.emails@.take(i as int + 1).drop_last() =~= self.emails@.take(i as int));
                assert(self.emails@.take(i as int + 1).last() == self.emails@[i as int]);
            }
            let e = &self.emails[i];
            if str_eq(e.folder.as_str(), folder) {
                let row = copy_email(e);
                out.push(row);
            }
            i = i + 1;
        }
        proof {
            assert(self.emails@.take(i as int) =~= self.emails@);
        }
        out
    }

    /// Lists a folder newest first: rows `start .. start + limit` of this
    /// folder's messages sorted descending by parsed date, as headers.
    pub fn get_headers(&self, folder: &str, start: usize, limit: usize) -> (r: Vec<EmailHeader>)
        ensures
            exists|sorted: Seq<CachedEmail>|
                {
                    &&& (#[trigger] sorted.to_multiset()) == spec_folder_emails(
                        self.emails@,
                        folder@,
                    ).to_multiset()
                    &&& spec_sorted_desc(sorted)
                    &&& r@.len() == (if start as int <= sorted.len() {
                        if start + limit <= sorted.len() {
                            limit as int
                        } else {
                            sorted.len() - start
                        }
                    } else {
                        0int
                    })
                    &&& forall|k: int|
                        0 <= k < r@.len() ==> spec_header_of_row(
                            #[trigger] r@[k],
                            sorted[start + k],
                        )
                },
    {
        let rows = self.folder_rows(folder);
        let sorted = sort_rows_desc(rows);
        let mut out: Vec<EmailHeader> = Vec::new();
        let n = sorted.len();
        let lo: usize = if start <= n {
            start
        } else {
            n
        };
        let hi: usize = if limit <= n - lo {
            lo + limit
        } else {
            n
        };
        let mut k: usize = lo;
        while k < hi
            invariant
                lo <= k <= hi <= sorted@.len(),
                out@.len() == k - lo,
                forall|j: int|
                    0 <= j < out@.len() ==> spec_header_of_row(
                        #[trigger] out@[j],
                        sorted@[lo + j],
                    ),
            decreases hi - k,
        {
            let e = &sorted[k];
            out.push(
                EmailHeader {
                    uid: e.uid,
                    subject: e.subject.clone(),
                    from: e.from.clone(),
                    to: e.to.clone(),
                    date: e.date.clone(),
                    is_read: e.is_read,
                    is_flagged: false,
                    is_answered: false,
                    is_draft: false,
                    flags: Vec::new(),
                    has_attachments: e.has_attachments,
                },
            );
            k = k + 1;
        }
        proof {
            let witness = sorted@;
            assert(witness.to_multiset() == spec_folder_emails(
                self.emails@,
                folder@,
            ).to_multiset());
            if start <= witness.len() {
                assert(lo == start);
            }
        }
        out
    }

    /// Upserts a spam verdict for a cached message; a verdict for a message
    /// that is not cached is an error (the delete-cascade invariant).
    pub fn store_spam_result(
        &mut self,
        folder: &str,
        uid: u32,
        is_spam: bool,
        confidence_hundredths: u32,
        reason: &str,
        now: i64,
    ) -> (r: Result<(), String>)
        ensures
            r is Err ==> spec_find_email(old(self).emails@, folder@, uid) is None && *final(self)
                == *old(self),
            r is Ok ==> ({
                let x = final(self).spam_scans@.last();
                &&& spec_find_email(old(self).emails@, folder@, uid) is Some
                &&& final(self).spam_scans@ == spec_spams_without(
                    old(self).spam_scans@,
                    folder@,
                    uid,
                ).push(x)
                &&& x.folder@ == folder@
                &&& x.uid == uid
                &&& x.is_spam == is_spam
                &&& x.confidence_hundredths == confidence_hundredths
                &&& x.reason@ == reason@
                &&& x.scanned_ts == now
                &&& final(self).emails@ == old(self).emails@
                &&& final(self).attachments@ == old(self).attachments@
                &&& final(self).assignments@ == old(self).assignments@
                &&& final(self).sync_states@ == old(self).sync_states@
                &&& final(self).categories@ == old(self).categories@
                &&& final(self).spam_states@ == old(self).spam_states@
            }),
            spec_cache_wf(*old(self)) ==> spec_cache_wf(*final(self)),
    {
        if self.find_email_idx(folder, uid).is_none() {
            return Err("no such message in the cache".to_owned());
        }
        self.remove_spam_key(folder, uid);
        let row = SpamScan {
            folder: folder.to_owned(),
            uid,
            is_spam,
            confidence_hundredths,
            reason: reason.to_owned(),
            scanned_ts: now,
        };
        self.spam_scans.push(row);
        proof {
            if spec_cache_wf(*old(self)) {
                assert forall|j: int| 0 <= j < self.spam_scans@.len() implies spec_find_email(
                    self.emails@,
                    (#[trigger] self.spam_scans@[j]).folder@,
                    self.spam_scans@[j].uid,
                ) is Some by {
                    if j < self.spam_scans@.len() - 1 {
                        lemma_spams_without_elem(old(self).spam_scans@, folder@, uid,
                            self.spam_scans@[j]);
                    }
                }
            }
        }
        Ok(())
    }

    /// Removes the spam verdict of one message, touching no other table.
    fn remove_spam_key(&mut self, folder: &str, uid: u32)
        ensures
            final(self).spam_scans@ == spec_spams_without(old(self).spam_scans@, folder@, uid),
            final(self).emails@ == old(self).emails@,
            final(self).attachments@ == old(self).attachments@,
            final(self).assignments@ == old(self).assignments@,
            final(self).sync_states@ == old(self).sync_states@,
            final(self).categories@ == old(self).categories@,
            final(self).spam_states@ == old(self).spam_states@,
    {
        let ghost orig = self.spam_scans@;
        let mut i: usize = 0;
        let ghost mut gj: int = 0;
        proof {
            assert(orig.take(0) =~= Seq::<SpamScan>::empty());
            reveal(Seq::filter);
            assert(self.spam_scans@ =~= spec_spams_without(orig.take(gj), folder@, uid)
                + orig.skip(gj));
        }
        while i < self.spam_scans.len()
            invariant
                0 <= gj <= orig.len(),
                i == spec_spams_without(orig.take(gj), folder@, uid).len(),
                self.spam_scans@ == spec_spams_without(orig.take(gj), folder@, uid) + orig.skip(
                    gj,
                ),
                self.emails@ == old(self).emails@,
                self.attachments@ == old(self).attachments@,
                self.assignments@ == old(self).assignments@,
                self.sync_states@ == old(self).sync_states@,
                self.categories@ == old(self).categories@,
                self.spam_states@ == old(self).spam_states@,
                orig == old(self).spam_scans@,
            decreases self.spam_scans@.len() - i,
        {
            let ghost w = spec_spams_without(orig.take(gj), folder@, uid);
            proof {
                assert(self.spam_scans@.len() == w.len() + orig.skip(gj).len());
                assert(gj < orig.len());
                assert(self.spam_scans@[i as int] == orig.skip(gj)[0]);
                assert(orig.skip(gj)[0] == orig[gj]);
                assert(orig.take(gj + 1).drop_last() =~= orig.take(gj));
                assert(orig.take(gj + 1).last() == orig[gj]);
                reveal(Seq::filter);
            }
            let x = &self.spam_scans[i];
            if str_eq(x.folder.as_str(), folder) && x.uid == uid {
                self.spam_scans.remove(i);
                proof {
                    assert(self.spam_scans@ =~= w + orig.skip(gj + 1));
                }
            } else {
                proof {
                    assert(spec_spams_without(orig.take(gj + 1), folder@, uid) =~= w.push(
                        orig[gj],
                    ));
                    assert(self.spam_scans@ =~= spec_spams_without(orig.take(gj + 1), folder@,
                        uid,
                    ) + orig.skip(gj + 1));
                }
                i = i + 1;
            }
            proof {
                gj = gj + 1;
            }
        }
        proof {
            assert(orig.skip(gj) =~= Seq::<SpamScan>::empty());
            assert(orig.take(gj) =~= orig);
            assert(self.spam_scans@ =~= spec_spams_without(orig, folder@, uid));
        }
    }

    /// Whether a message already carries a spam verdict.
    pub fn is_spam_scanned(&self, folder: &str, uid: u32) -> (r: bool)
        ensures
            r == (spec_find_spam(self.spam_scans@, folder@, uid) is Some),
    {
        let mut i: usize = 0;
        while i < self.spam_scans.len()
            invariant
                i <= self.spam_scans@.len(),
                forall|k: int|
                    0 <= k < i ==> !spec_spam_key_is(#[trigger] self.spam_scans@[k], folder@, uid),
            decreases self.spam_scans@.len() - i,
        {
            let x = &self.spam_scans[i];
            if str_eq(x.folder.as_str(), folder) && x.uid == uid {
                proof {
                    lemma_find_spam_hit(self.spam_scans@, folder@, uid, i as int);
                }
                return true;
            }
            i = i + 1;
        }
        proof {
            lemma_find_spam_miss(self.spam_scans@, folder@, uid);
        }
        false
    }

    /// The detected spam of a folder, each as `(uid, confidence, reason)`.
    pub fn get_spam_candidates(&self, folder: &str) -> (r: Vec<(u32, u32, String)>)
        ensures
            r@.map_values(|t: (u32, u32, String)| (t.0, t.1, t.2@)) == spec_spam_candidates(
                self.spam_scans@,
                folder@,
            ),
    {
        let mut out: Vec<(u32, u32, String)> = Vec::new();
        let mut i: usize = 0;
        proof {
            reveal(Seq::filter);
            assert(out@.map_values(|t: (u32, u32, String)| (t.0, t.1, t.2@))
                =~= spec_spam_candidates(self.spam_scans@.take(0), folder@));
        }
        while i < self.spam_scans.len()
            invariant
                i <= self.spam_scans@.len(),
                out@.map_values(|t: (u32, u32, String)| (t.0, t.1, t.2@)) == spec_spam_candidates(
                    self.spam_scans@.take(i as int),
                    folder@,
                ),
            decreases self.spam_scans@.len() - i,
        {
            proof {
                reveal(Seq::filter);
                assert(self.spam_scans@.take(i as int + 1).drop_last() =~= self.spam_scans@.take(
                    i as int,
                ));
                assert(self.spam_scans@.take(i as int + 1).last() == self.spam_scans@[i as int]);
            }
            let x = &self.spam_scans[i];
            if x.is_spam && str_eq(x.folder.as_str(), folder) {
                out.push((x.uid, x.confidence_hundredths, x.reason.clone()));
                proof {
                    assert(out@.map_values(|t: (u32, u32, String)| (t.0, t.1, t.2@))
                        =~= spec_spam_candidates(self.spam_scans@.take(i as int + 1), folder@));
                }
            } else {
                proof {
                    assert(out@.map_values(|t: (u32, u32, String)| (t.0, t.1, t.2@))
                        =~= spec_spam_candidates(self.spam_scans@.take(i as int + 1), folder@));
                }
            }
            i = i + 1;
        }
        proof {
            assert(self.spam_scans@.take(i as int) =~= self.spam_scans@);
        }
        out
    }

    /// How many messages of a folder are flagged spam.
    pub fn get_spam_count(&self, folder: &str) -> (r: usize)
        ensures
            r == spec_spam_candidates(self.spam_scans@, folder@).len(),
    {
        let candidates = self.get_spam_candidates(folder);
        proof {
            assert(candidates@.map_values(|t: (u32, u32, String)| (t.0, t.1, t.2@)).len()
                == candidates@.len());
        }
        candidates.len()
    }

    /// The spam-scan watermark of a folder.
    pub fn get_spam_scan_state(&self, folder: &str) -> (r: Option<u32>)
        ensures
            (match spec_find_spam_state(self.spam_states@, folder@) {
                Some(st) => r == Some(st.highest_scanned_uid),
                None => r is None,
            }),
    {
        let mut i: usize = 0;
        while i < self.spam_states.len()
            invariant
                i <= self.spam_states@.len(),
                forall|k: int| 0 <= k < i ==> (#[trigger] self.spam_states@[k]).folder@ != folder@,
            decreases self.spam_states@.len() - i,
        {
            let x = &self.spam_states[i];
            if str_eq(x.folder.as_str(), folder) {
                proof {
                    lemma_find_spam_state_hit(self.spam_states@, folder@, i as int);
                }
                return Some(x.highest_scanned_uid);
            }
            i = i + 1;
        }
        proof {
            lemma_find_spam_state_miss(self.spam_states@, folder@);
        }
        None
    }

    /// Advances the spam-scan watermark; like the sync watermark it never
    /// moves backwards.
    pub fn set_spam_scan_state(&mut self, folder: &str, highest_uid: u32)
        ensures
            spec_find_spam_state(final(self).spam_states@, folder@) matches Some(st) && st.folder@
                == folder@ && st.highest_scanned_uid == (match spec_find_spam_state(
                old(self).spam_states@,
                folder@,
            ) {
                Some(p) => if p.highest_scanned_uid > highest_uid {
                    p.highest_scanned_uid
                } else {
                    highest_uid
                },
                None => highest_uid,
            }),
            final(self).emails@ == old(self).emails@,
            final(self).attachments@ == old(self).attachments@,
            final(self).assignments@ == old(self).assignments@,
            final(self).sync_states@ == old(self).sync_states@,
            final(self).categories@ == old(self).categories@,
            final(self).spam_scans@ == old(self).spam_scans@,
            spec_cache_wf(*old(self)) ==> spec_cache_wf(*final(self)),
    {
        let prev = self.get_spam_scan_state(folder);
        let ghost prev_spec = spec_find_spam_state(self.spam_states@, folder@);
        let clamped = match prev {
            Some(p) => if p > highest_uid {
                p
            } else {
                highest_uid
            },
            None => highest_uid,
        };
        let ghost orig = self.spam_states@;
        let mut kept: Vec<SpamScanState> = Vec::new();
        let mut i: usize = 0;
        proof {
            reveal(Seq::filter);
            assert(kept@ =~= spec_spam_states_without(orig.take(0), folder@));
        }
        while i < self.spam_states.len()
            invariant
                i <= self.spam_states@.len(),
                orig == self.spam_states@,
                kept@ == spec_spam_states_without(orig.take(i as int), folder@),
            decreases self.spam_states@.len() - i,
        {
            proof {
                reveal(Seq::filter);
                assert(orig.take(i as int + 1).drop_last() =~= orig.take(i as int));
                assert(orig.take(i as int + 1).last() == orig[i as int]);
            }
            let x = &self.spam_states[i];
            if !str_eq(x.folder.as_str(), folder) {
                kept.push(
                    SpamScanState {
                        folder: x.folder.clone(),
                        highest_scanned_uid: x.highest_scanned_uid,
                    },
                );
            }
            i = i + 1;
        }
        proof {
            assert(orig.take(i as int) =~= orig);
        }
        kept.push(SpamScanState { folder: folder.to_owned(), highest_scanned_uid: clamped });
        self.spam_states = kept;
        proof {
            let w = spec_spam_states_without(orig, folder@);
            lemma_spam_states_without_all_other(orig, folder@);
            lemma_find_spam_state_miss(w, folder@);
            lemma_find_spam_state_push_hit(w, folder@, self.spam_states@.last());
        }
    }
}

/// The spam verdicts of a folder flagged as spam, as `(uid, confidence,
/// reason)`.
pub open spec fn spec_spam_candidates(rows: Seq<SpamScan>, folder: Seq<char>) -> Seq<
    (u32, u32, Seq<char>),
>
    decreases rows.len(),
{
    if rows.len() == 0 {
        Seq::empty()
    } else {
        spec_spam_candidates(rows.drop_last(), folder) + (if rows.last().is_spam
            && rows.last().folder@ == folder {
            seq![(rows.last().uid, rows.last().confidence_hundredths, rows.last().reason@)]
        } else {
            Seq::empty()
        })
    }
}

proof fn lemma_find_spam_hit(rows: Seq<SpamScan>, folder: Seq<char>, uid: u32, i: int)
    requires
        0 <= i < rows.len(),
        spec_spam_key_is(rows[i], folder, uid),
        forall|k: int| 0 <= k < i ==> !spec_spam_key_is(#[trigger] rows[k], folder, uid),
    ensures
        spec_find_spam(rows, folder, uid) is Some,
    decreases rows.len(),
{
    if i > 0 {
        lemma_find_spam_hit(rows.drop_first(), folder, uid, i - 1);
    }
}

proof fn lemma_find_spam_miss(rows: Seq<SpamScan>, folder: Seq<char>, uid: u32)
    requires
        forall|k: int| 0 <= k < rows.len() ==> !spec_spam_key_is(#[trigger] rows[k], folder, uid),
    ensures
        spec_find_spam(rows, folder, uid) is None,
    decreases rows.len(),
{
    if rows.len() > 0 {
        lemma_find_spam_miss(rows.drop_first(), folder, uid);
    }
}

proof fn lemma_find_spam_state_hit(rows: Seq<SpamScanState>, folder: Seq<char>, i: int)
    requires
        0 <= i < rows.len(),
        rows[i].folder@ == folder,
        forall|k: int| 0 <= k < i ==> (#[trigger] rows[k]).folder@ != folder,
    ensures
        spec_find_spam_state(rows, folder) == Some(rows[i]),
    decreases rows.len(),
{
    if i > 0 {
        lemma_find_spam_state_hit(rows.drop_first(), folder, i - 1);
    }
}

proof fn lemma_find_spam_state_miss(rows: Seq<SpamScanState>, folder: Seq<char>)
    requires
        forall|k: int| 0 <= k < rows.len() ==> (#[trigger] rows[k]).folder@ != folder,
    ensures
        spec_find_spam_state(rows, folder) is None,
    decreases rows.len(),
{
    if rows.len() > 0 {
        lemma_find_spam_state_miss(rows.drop_first(), folder);
    }
}

proof fn lemma_spam_states_without_all_other(rows: Seq<SpamScanState>, folder: Seq<char>)
    ensures
        forall|k: int|
            0 <= k < spec_spam_states_without(rows, folder).len() ==> (
            #[trigger] spec_spam_states_without(rows, folder)[k]).folder@ != folder,
{
    rows.filter_lemma(|x: SpamScanState| x.folder@ != folder);
}

proof fn lemma_find_spam_state_push_hit(w: Seq<SpamScanState>, folder: Seq<char>, r: SpamScanState)
    requires
        spec_find_spam_state(w, folder) is None,
        r.folder@ == folder,
    ensures
        spec_find_spam_state(w.push(r), folder) == Some(r),
    decreases w.len(),
{
    if w.len() == 0 {
        assert(w.push(r)[0] == r);
    } else {
        assert(w.push(r)[0] == w[0]);
        assert(w.push(r).drop_first() =~= w.drop_first().push(r));
        lemma_find_spam_state_push_hit(w.drop_first(), folder, r);
    }
}


/// An attachment row as `(folder, uid, filename, mime type, size)`; rows
/// written by a message store carry no blob yet.
pub open spec fn spec_attrow_v(a: CachedAttachment) -> (
    Seq<char>,
    u32,
    Seq<char>,
    Seq<char>,
    int,
) {
    (a.folder@, a.email_uid, a.filename@, a.mime_type@, a.size as int)
}

/// A whole attachment table under the row view.
pub open spec fn spec_attrows_v(rows: Seq<CachedAttachment>) -> Seq<
    (Seq<char>, u32, Seq<char>, Seq<char>, int),
> {
    rows.map_values(|a: CachedAttachment| spec_attrow_v(a))
}

/// The rows a message store writes for its attachments.
pub open spec fn spec_new_attrows(atts: Seq<Attachment>, folder: Seq<char>, uid: u32) -> Seq<
    (Seq<char>, u32, Seq<char>, Seq<char>, int),
> {
    atts.map_values(|a: Attachment| (folder, uid, a.filename@, a.mime_type@, a.size as int))
}

/// An attachment row of one message as `(filename, mime type, size)`.
pub open spec fn spec_att_meta(
    rows: Seq<CachedAttachment>,
    folder: Seq<char>,
    uid: u32,
) -> Seq<(Seq<char>, Seq<char>, int)>
    decreases rows.len(),
{
    if rows.len() == 0 {
        Seq::empty()
    } else {
        spec_att_meta(rows.drop_last(), folder, uid) + (if spec_att_key_is(
            rows.last(),
            folder,
            uid,
        ) {
            seq![(rows.last().filename@, rows.last().mime_type@, rows.last().size as int)]
        } else {
            Seq::empty()
        })
    }
}

/// Whether a row matches a (lowercased) search query: a case-insensitive
/// substring of subject, sender, recipient or plain body.
pub open spec fn spec_email_matches(e: CachedEmail, lq: Seq<char>) -> bool {
    ||| spec_contains_seq(spec_lower_seq(e.subject@), lq)
    ||| spec_contains_seq(spec_lower_seq(e.from@), lq)
    ||| spec_contains_seq(spec_lower_seq(e.to@), lq)
    ||| spec_contains_seq(spec_lower_seq(e.body_text@), lq)
}

/// The rows matching a query.
pub open spec fn spec_search_rows(rows: Seq<CachedEmail>, q: Seq<char>) -> Seq<CachedEmail> {
    rows.filter(|e: CachedEmail| spec_email_matches(e, spec_lower_seq(q)))
}

/// The rows of a folder with no category assignment.
pub open spec fn spec_uncategorized(
    rows: Seq<CachedEmail>,
    asgs: Seq<CategoryAssignment>,
    folder: Seq<char>,
) -> Seq<CachedEmail> {
    rows.filter(
        |e: CachedEmail| e.folder@ == folder && spec_find_asg(asgs, e.folder@, e.uid) is None,
    )
}

/// The rows carrying a given category.
pub open spec fn spec_rows_with_category(
    rows: Seq<CachedEmail>,
    asgs: Seq<CategoryAssignment>,
    category_id: Seq<char>,
) -> Seq<CachedEmail> {
    rows.filter(
        |e: CachedEmail| (match spec_find_asg(asgs, e.folder@, e.uid) {
            Some(c) => c.category_id@ == category_id,
            None => false,
        }),
    )
}

/// First attachment row of a message with the given file name.
pub open spec fn spec_find_att_named(
    rows: Seq<CachedAttachment>,
    folder: Seq<char>,
    uid: u32,
    filename: Seq<char>,
) -> Option<CachedAttachment>
    decreases rows.len(),
{
    if rows.len() == 0 {
        None
    } else if spec_att_key_is(rows[0], folder, uid) && rows[0].filename@ == filename {
        Some(rows[0])
    } else {
        spec_find_att_named(rows.drop_first(), folder, uid, filename)
    }
}

impl EmailCache {
    /// Reads one cached message with its attachment metadata; the cached body
    /// may still be empty. A message handed out this way counts as read.
    pub fn get_email(&self, folder: &str, uid: u32) -> (r: Option<Email>)
        ensures
            r is None <==> spec_find_email(self.emails@, folder@, uid) is None,
            r matches Some(e) ==> (spec_find_email(self.emails@, folder@, uid) matches Some(row)
                && {
                &&& e.uid == row.uid
                &&& e.subject == row.subject
                &&& e.from == row.from
                &&& e.to == row.to
                &&& e.cc == row.cc
                &&& e.date == row.date
                &&& e.body_text == row.body_text
                &&& e.body_html == row.body_html
                &&& e.is_read
                &&& !e.is_flagged && !e.is_answered && !e.is_draft
                &&& e.flags@.len() == 0
                &&& e.attachments@.map_values(
                    |a: Attachment| (a.filename@, a.mime_type@, a.size as int),
                ) == spec_att_meta(self.attachments@, folder@, uid)
                &&& forall|k: int|
                    0 <= k < e.attachments@.len() ==> (#[trigger] e.attachments@[k]).part_id@
                        == Seq::<char>::empty() && e.attachments@[k].encoding@ == "base64"@
            }),
    {
        let idx = match self.find_email_idx(folder, uid) {
            Some(i) => i,
            None => {
                return None;
            },
        };
        let row = &self.emails[idx];
        let mut atts: Vec<Attachment> = Vec::new();
        let mut i: usize = 0;
        proof {
            assert(atts@.map_values(|a: Attachment| (a.filename@, a.mime_type@, a.size as int))
                =~= spec_att_meta(self.attachments@.take(0), folder@, uid));
        }
        while i < self.attachments.len()
            invariant
                i <= self.attachments@.len(),
                atts@.map_values(|a: Attachment| (a.filename@, a.mime_type@, a.size as int))
                    == spec_att_meta(self.attachments@.take(i as int), folder@, uid),
                forall|k: int|
                    0 <= k < atts@.len() ==> (#[trigger] atts@[k]).part_id@
                        == Seq::<char>::empty() && atts@[k].encoding@ == "base64"@,
            decreases self.attachments@.len() - i,
        {
            proof {
                assert(self.attachments@.take(i as int + 1).drop_last() =~= self.attachments@.take(
                    i as int,
                ));
                assert(self.attachments@.take(i as int + 1).last() == self.attachments@[i as int]);
            }
            let a = &self.attachments[i];
            if str_eq(a.folder.as_str(), folder) && a.email_uid == uid {
                atts.push(
                    Attachment {
                        filename: a.filename.clone(),
                        mime_type: a.mime_type.clone(),
                        size: a.size,
                        part_id: String::new(),
                        encoding: "base64".to_owned(),
                    },
                );
                proof {
                    assert(atts@.map_values(
                        |a: Attachment| (a.filename@, a.mime_type@, a.size as int),
                    ) =~= spec_att_meta(self.attachments@.take(i as int + 1), folder@, uid));
                }
            } else {
                proof {
                    assert(atts@.map_values(
                        |a: Attachment| (a.filename@, a.mime_type@, a.size as int),
                    ) =~= spec_att_meta(self.attachments@.take(i as int + 1), folder@, uid));
                }
            }
            i = i + 1;
        }
        proof {
            assert(self.attachments@.take(i as int) =~= self.attachments@);
        }
        Some(
            Email {
                uid: row.uid,
                subject: row.subject.clone(),
                from: row.from.clone(),
                to: row.to.clone(),
                cc: row.cc.clone(),
                date: row.date.clone(),
                body_text: row.body_text.clone(),
                body_html: row.body_html.clone(),
                attachments: atts,
                is_read: true,
                is_flagged: false,
                is_answered: false,
                is_draft: false,
                flags: Vec::new(),
            },
        )
    }

    /// Fills the blob of every attachment row matching folder, uid and file
    /// name; every other row and table stays as it was.
    pub fn store_attachment_data(&mut self, folder: &str, uid: u32, filename: &str, data: &[u8])
        ensures
            final(self).attachments@.len() == old(self).attachments@.len(),
            forall|i: int|
                0 <= i < old(self).attachments@.len() ==> ({
                    let pre = #[trigger] old(self).attachments@[i];
                    let post = final(self).attachments@[i];
                    if spec_att_key_is(pre, folder@, uid) && pre.filename@ == filename@ {
                        &&& post.folder == pre.folder
                        &&& post.email_uid == pre.email_uid
                        &&& post.filename == pre.filename
                        &&& post.mime_type == pre.mime_type
                        &&& post.size == pre.size
                        &&& (post.data matches Some(d) && d@ == data@)
                    } else {
                        post == pre
                    }
                }),
            final(self).emails@ == old(self).emails@,
            final(self).assignments@ == old(self).assignments@,
            final(self).sync_states@ == old(self).sync_states@,
            final(self).categories@ == old(self).categories@,
            final(self).spam_scans@ == old(self).spam_scans@,
            final(self).spam_states@ == old(self).spam_states@,
            spec_cache_wf(*old(self)) ==> spec_cache_wf(*final(self)),
    {
        let mut i: usize = 0;
        while i < self.attachments.len()
            invariant
                i <= self.attachments@.len(),
                self.attachments@.len() == old(self).attachments@.len(),
                forall|k: int|
                    0 <= k < i ==> ({
                        let pre = #[trigger] old(self).attachments@[k];
                        let post = self.attachments@[k];
                        if spec_att_key_is(pre, folder@, uid) && pre.filename@ == filename@ {
                            &&& post.folder == pre.folder
                            &&& post.email_uid == pre.email_uid
                            &&& post.filename == pre.filename
                            &&& post.mime_type == pre.mime_type
                            &&& post.size == pre.size
                            &&& (post.data matches Some(d) && d@ == data@)
                        } else {
                            post == pre
                        }
                    }),
                forall|k: int|
                    i <= k < self.attachments@.len() ==> self.attachments@[k] == old(
                        self,
                    ).attachments@[k],
                self.emails@ == old(self).emails@,
                self.assignments@ == old(self).assignments@,
                self.sync_states@ == old(self).sync_states@,
                self.categories@ == old(self).categories@,
                self.spam_scans@ == old(self).spam_scans@,
                self.spam_states@ == old(self).spam_states@,
            decreases self.attachments@.len() - i,
        {
            let hit = {
                let a = &self.attachments[i];
                str_eq(a.folder.as_str(), folder) && a.email_uid == uid && str_eq(
                    a.filename.as_str(),
                    filename,
                )
            };
            if hit {
                let ghost before = self.attachments@;
                let a = self.attachments.remove(i);
                let mut blob: Vec<u8> = Vec::new();
                let mut k: usize = 0;
                while k < data.len()
                    invariant
                        k <= data@.len(),
                        blob@ == data@.take(k as int),
                    decreases data@.len() - k,
                {
                    blob.push(data[k]);
                    proof {
                        assert(data@.take(k as int + 1) =~= data@.take(k as int).push(
                            data@[k as int],
                        ));
                    }
                    k = k + 1;
                }
                proof {
                    assert(data@.take(k as int) =~= data@);
                }
                let filled = CachedAttachment {
                    folder: a.folder,
                    email_uid: a.email_uid,
                    filename: a.filename,
                    mime_type: a.mime_type,
                    size: a.size,
                    data: Some(blob),
                };
                self.attachments.insert(i, filled);
                proof {
                    assert(self.attachments@ =~= before.update(
                        i as int,
                        self.attachments@[i as int],
                    ));
                }
            }
            i = i + 1;
        }
        proof {
            if spec_cache_wf(*old(self)) {
                assert forall|k: int| 0 <= k < self.attachments@.len() implies spec_find_email(
                    self.emails@,
                    (#[trigger] self.attachments@[k]).folder@,
                    self.attachments@[k].email_uid,
                ) is Some by {
                    assert(self.attachments@[k].folder@ == old(self).attachments@[k].folder@);
                    assert(self.attachments@[k].email_uid == old(
                        self,
                    ).attachments@[k].email_uid);
                }
            }
        }
    }

    /// The stored blob of one attachment, by folder, uid and file name: the
    /// first matching row's bytes, or nothing when no row matches or the
    /// matching row holds no blob yet.
    pub fn get_attachment_data(&self, folder: &str, uid: u32, filename: &str) -> (r: Option<
        Vec<u8>,
    >)
        ensures
            (match spec_find_att_named(self.attachments@, folder@, uid, filename@) {
                None => r is None,
                Some(row) => (match row.data {
                    Some(d) => r matches Some(rd) && rd@ == d@,
                    None => r is None,
                }),
            }),
    {
        let mut i: usize = 0;
        proof {
            assert(self.attachments@.skip(0) =~= self.attachments@);
        }
        while i < self.attachments.len()
            invariant
                i <= self.attachments@.len(),
                spec_find_att_named(self.attachments@, folder@, uid, filename@)
                    == spec_find_att_named(
                    self.attachments@.skip(i as int),
                    folder@,
                    uid,
                    filename@,
                ),
            decreases self.attachments@.len() - i,
        {
            proof {
                assert(self.attachments@.skip(i as int)[0] == self.attachments@[i as int]);
                assert(self.attachments@.skip(i as int).drop_first() =~= self.attachments@.skip(
                    i as int + 1,
                ));
            }
            let a = &self.attachments[i];
            if str_eq(a.folder.as_str(), folder) && a.email_uid == uid && str_eq(
                a.filename.as_str(),
                filename,
            ) {
                return match &a.data {
                    Some(d) => Some(crate::imap::copy_bytes(d)),
                    None => None,
                };
            }
            i = i + 1;
        }
        proof {
            assert(self.attachments@.skip(i as int) =~= Seq::<CachedAttachment>::empty());
        }
        None
    }

    /// Upserts a full message by `(folder, uid)` and appends its attachment
    /// metadata; a stored message starts unread, as read state is tracked
    /// separately.
    pub fn store_email(&mut self, folder: &str, email: &Email, date_timestamp: i64, now: i64)
        ensures
            final(self).emails@ == spec_emails_without(old(self).emails@, folder@,
                email.uid,
            ).push(final(self).emails@.last()),
            ({
                let row = final(self).emails@.last();
                &&& row.folder@ == folder@
                &&& row.uid == email.uid
                &&& row.subject == email.subject
                &&& row.from == email.from
                &&& row.to == email.to
                &&& row.cc == email.cc
                &&& row.date == email.date
                &&& row.date_timestamp == date_timestamp
                &&& !row.is_read
                &&& row.has_attachments == (email.attachments@.len() > 0)
                &&& row.body_text == email.body_text
                &&& row.body_html == email.body_html
                &&& row.cached_at == now
            }),
            spec_attrows_v(final(self).attachments@) == spec_attrows_v(old(self).attachments@)
                + spec_new_attrows(email.attachments@, folder@, email.uid),
            final(self).assignments@ == old(self).assignments@,
            final(self).sync_states@ == old(self).sync_states@,
            final(self).categories@ == old(self).categories@,
            final(self).spam_scans@ == old(self).spam_scans@,
            final(self).spam_states@ == old(self).spam_states@,
            spec_cache_wf(*old(self)) ==> spec_cache_wf(*final(self)),
    {
        self.remove_email_key(folder, email.uid);
        let row = CachedEmail {
            folder: folder.to_owned(),
            uid: email.uid,
            subject: email.subject.clone(),
            from: email.from.clone(),
            to: email.to.clone(),
            cc: email.cc.clone(),
            date: email.date.clone(),
            date_timestamp,
            is_read: false,
            has_attachments: email.attachments.len() > 0,
            body_text: email.body_text.clone(),
            body_html: email.body_html.clone(),
            cached_at: now,
        };
        self.emails.push(row);
        let ghost mid = *self;
        let ghost base_v = spec_attrows_v(self.attachments@);
        let mut k: usize = 0;
        proof {
            assert(spec_new_attrows(email.attachments@.take(0), folder@, email.uid) =~= Seq::<
                (Seq<char>, u32, Seq<char>, Seq<char>, int),
            >::empty());
            assert(spec_attrows_v(self.attachments@) =~= base_v + spec_new_attrows(
                email.attachments@.take(0),
                folder@,
                email.uid,
            ));
        }
        while k < email.attachments.len()
            invariant
                k <= email.attachments@.len(),
                self.emails@ == mid.emails@,
                self.assignments@ == mid.assignments@,
                self.sync_states@ == mid.sync_states@,
                self.categories@ == mid.categories@,
                self.spam_scans@ == mid.spam_scans@,
                self.spam_states@ == mid.spam_states@,
                base_v == spec_attrows_v(mid.attachments@),
                spec_attrows_v(self.attachments@) == base_v + spec_new_attrows(
                    email.attachments@.take(k as int),
                    folder@,
                    email.uid,
                ),
            decreases email.attachments@.len() - k,
        {
            let a = &email.attachments[k];
            let ghost prev_rows = self.attachments@;
            self.attachments.push(
                CachedAttachment {
                    folder: folder.to_owned(),
                    email_uid: email.uid,
                    filename: a.filename.clone(),
                    mime_type: a.mime_type.clone(),
                    size: a.size,
                    data: None,
                },
            );
            proof {
                assert(self.attachments@ == prev_rows.push(self.attachments@.last()));
                assert(spec_attrow_v(self.attachments@.last()) == (folder@, email.uid,
                email.attachments@[k as int].filename@, email.attachments@[k as int].mime_type@,
                email.attachments@[k as int].size as int));
                assert(email.attachments@.take(k as int + 1) =~= email.attachments@.take(
                    k as int,
                ).push(email.attachments@[k as int]));
                assert forall|i: int| 0 <= i < prev_rows.len() implies spec_attrows_v(
                    self.attachments@,
                )[i] == spec_attrows_v(prev_rows)[i] by {
                    assert(self.attachments@[i] == prev_rows[i]);
                }
                assert(spec_new_attrows(email.attachments@.take(k as int + 1), folder@, email.uid)
                    =~= spec_new_attrows(email.attachments@.take(k as int), folder@,
                    email.uid,
                ).push(
                    (folder@, email.uid, email.attachments@[k as int].filename@,
                    email.attachments@[k as int].mime_type@,
                    email.attachments@[k as int].size as int),
                ));
                let lhs = spec_attrows_v(self.attachments@);
                let rhs = base_v + spec_new_attrows(
                    email.attachments@.take(k as int + 1),
                    folder@,
                    email.uid,
                );
                assert(spec_attrows_v(prev_rows).len() == prev_rows.len());
                assert(lhs.len() == prev_rows.len() + 1);
                assert(rhs.len() == base_v.len() + k + 1);
                assert(lhs.len() == rhs.len());
                assert forall|i: int| 0 <= i < lhs.len() implies lhs[i] == rhs[i] by {
                    if i < prev_rows.len() {
                        assert(lhs[i] == spec_attrows_v(prev_rows)[i]);
                        assert(spec_attrows_v(prev_rows)[i] == (base_v + spec_new_attrows(
                            email.attachments@.take(k as int),
                            folder@,
                            email.uid,
                        ))[i]);
                        if i < base_v.len() {
                            assert(rhs[i] == base_v[i]);
                        } else {
                            assert(rhs[i] == spec_new_attrows(
                                email.attachments@.take(k as int + 1),
                                folder@,
                                email.uid,
                            )[i - base_v.len()]);
                            assert(spec_new_attrows(
                                email.attachments@.take(k as int + 1),
                                folder@,
                                email.uid,
                            )[i - base_v.len()] == spec_new_attrows(
                                email.attachments@.take(k as int),
                                folder@,
                                email.uid,
                            )[i - base_v.len()]);
                        }
                    } else {
                        assert(lhs[i] == spec_attrow_v(self.attachments@.last()));
                        assert(rhs[i] == spec_new_attrows(
                            email.attachments@.take(k as int + 1),
                            folder@,
                            email.uid,
                        )[k as int]);
                    }
                }
                assert(lhs =~= rhs);
            }
            k = k + 1;
        }
        proof {
            assert(email.attachments@.take(k as int) =~= email.attachments@);
            if spec_cache_wf(*old(self)) {
                let w = spec_emails_without(old(self).emails@, folder@, email.uid);
                let erow = self.emails@.last();
                let av = spec_attrows_v(self.attachments@);
                let old_av = spec_attrows_v(old(self).attachments@);
                assert forall|j: int| 0 <= j < self.attachments@.len() implies spec_find_email(
                    self.emails@,
                    (#[trigger] self.attachments@[j]).folder@,
                    self.attachments@[j].email_uid,
                ) is Some by {
                    assert(av[j] == spec_attrow_v(self.attachments@[j]));
                    if j < old(self).attachments@.len() {
                        assert(av[j] == old_av[j]);
                        assert(old_av[j] == spec_attrow_v(old(self).attachments@[j]));
                        let af = self.attachments@[j].folder@;
                        let au = self.attachments@[j].email_uid;
                        assert(af == old(self).attachments@[j].folder@);
                        assert(au == old(self).attachments@[j].email_uid);
                        if af == folder@ && au == email.uid {
                            lemma_find_email_of_contained_at(self.emails@, folder@, email.uid,
                                self.emails@.len() - 1);
                        } else {
                            lemma_find_filter_other(old(self).emails@, af, au, folder@,
                                email.uid);
                            lemma_find_push_keeps(w, af, au, erow);
                        }
                    } else {
                        assert(self.attachments@[j].folder@ == folder@
                            && self.attachments@[j].email_uid == email.uid);
                        lemma_find_email_of_contained_at(self.emails@, folder@, email.uid,
                            self.emails@.len() - 1);
                    }
                }
                assert forall|j: int| 0 <= j < self.assignments@.len() implies spec_find_email(
                    self.emails@,
                    (#[trigger] self.assignments@[j]).folder@,
                    self.assignments@[j].uid,
                ) is Some by {
                    let c = self.assignments@[j];
                    if c.folder@ == folder@ && c.uid == email.uid {
                        lemma_find_email_of_contained_at(self.emails@, folder@, email.uid,
                            self.emails@.len() - 1);
                    } else {
                        lemma_find_filter_other(old(self).emails@, c.folder@, c.uid, folder@,
                            email.uid);
                        lemma_find_push_keeps(w, c.folder@, c.uid, erow);
                    }
                }
                assert forall|j: int| 0 <= j < self.spam_scans@.len() implies spec_find_email(
                    self.emails@,
                    (#[trigger] self.spam_scans@[j]).folder@,
                    self.spam_scans@[j].uid,
                ) is Some by {
                    let x = self.spam_scans@[j];
                    if x.folder@ == folder@ && x.uid == email.uid {
                        lemma_find_email_of_contained_at(self.emails@, folder@, email.uid,
                            self.emails@.len() - 1);
                    } else {
                        lemma_find_filter_other(old(self).emails@, x.folder@, x.uid, folder@,
                            email.uid);
                        lemma_find_push_keeps(w, x.folder@, x.uid, erow);
                    }
                }
            }
        }
    }

    /// Searches the cache: rows whose subject, sender, recipient or plain
    /// body holds the query case-insensitively, newest first, at most 100.
    pub fn search(&self, query: &str) -> (r: Vec<EmailHeader>)
        ensures
            r@.len() <= 100,
            exists|sorted: Seq<CachedEmail>|
                {
                    &&& (#[trigger] sorted.to_multiset()) == spec_search_rows(
                        self.emails@,
                        query@,
                    ).to_multiset()
                    &&& spec_sorted_desc(sorted)
                    &&& r@.len() == (if sorted.len() <= 100 {
                        sorted.len() as int
                    } else {
                        100int
                    })
                    &&& forall|k: int|
                        0 <= k < r@.len() ==> spec_header_of_row(#[trigger] r@[k], sorted[k])
                },
    {
        let qchars = str_to_chars(query);
        let lq = crate::textutil::lower_chars(&qchars);
        let mut rows: Vec<CachedEmail> = Vec::new();
        let mut i: usize = 0;
        proof {
            reveal(Seq::filter);
            assert(rows@ =~= spec_search_rows(self.emails@.take(0), query@));
        }
        while i < self.emails.len()
            invariant
                i <= self.emails@.len(),
                lq@ == spec_lower_seq(query@),
                rows@ == spec_search_rows(self.emails@.take(i as int), query@),
            decreases self.emails@.len() - i,
        {
            proof {
                reveal(Seq::filter);
                assert(self.emails@.take(i as int + 1).drop_last() =~= self.emails@.take(i as int));
                assert(self.emails@.take(i as int + 1).last() == self.emails@[i as int]);
            }
            let e = &self.emails[i];
            let subject_l = crate::textutil::lower_chars(&str_to_chars(e.subject.as_str()));
            let from_l = crate::textutil::lower_chars(&str_to_chars(e.from.as_str()));
            let to_l = crate::textutil::lower_chars(&str_to_chars(e.to.as_str()));
            let body_l = crate::textutil::lower_chars(&str_to_chars(e.body_text.as_str()));
            let hit = contains_seq(&subject_l, &lq) || contains_seq(&from_l, &lq) || contains_seq(
                &to_l,
                &lq,
            ) || contains_seq(&body_l, &lq);
            proof {
                assert(hit == spec_email_matches(self.emails@[i as int], spec_lower_seq(query@)));
            }
            if hit {
                let row = copy_email(e);
                rows.push(row);
            }
            i = i + 1;
        }
        proof {
            assert(self.emails@.take(i as int) =~= self.emails@);
        }
        let sorted = sort_rows_desc(rows);
        let n = sorted.len();
        let cap: usize = if n <= 100 {
            n
        } else {
            100
        };
        let mut out: Vec<EmailHeader> = Vec::new();
        let mut k: usize = 0;
        while k < cap
            invariant
                k <= cap <= sorted@.len(),
                out@.len() == k,
                forall|j: int|
                    0 <= j < out@.len() ==> spec_header_of_row(#[trigger] out@[j], sorted@[j]),
            decreases cap - k,
        {
            let e = &sorted[k];
            out.push(
                EmailHeader {
                    uid: e.uid,
                    subject: e.subject.clone(),
                    from: e.from.clone(),
                    to: e.to.clone(),
                    date: e.date.clone(),
                    is_read: e.is_read,
                    is_flagged: false,
                    is_answered: false,
                    is_draft: false,
                    flags: Vec::new(),
                    has_attachments: e.has_attachments,
                },
            );
            k = k + 1;
        }
        proof {
            let witness = sorted@;
            assert(witness.to_multiset() == spec_search_rows(self.emails@, query@).to_multiset());
        }
        out
    }
}


/// Characters of text kept for a row: subject plus both bodies.
pub open spec fn spec_text_size(rows: Seq<CachedEmail>) -> int
    decreases rows.len(),
{
    if rows.len() == 0 {
        0
    } else {
        spec_text_size(rows.drop_last()) + rows.last().subject@.len()
            + rows.last().body_text@.len() + rows.last().body_html@.len()
    }
}

/// Bytes of stored attachment blobs.
pub open spec fn spec_blob_size(rows: Seq<CachedAttachment>) -> int
    decreases rows.len(),
{
    if rows.len() == 0 {
        0
    } else {
        spec_blob_size(rows.drop_last()) + (match rows.last().data {
            Some(d) => d@.len() as int,
            None => 0,
        })
    }
}

proof fn lemma_text_size_mono(rows: Seq<CachedEmail>, k: int)
    requires
        0 <= k <= rows.len(),
    ensures
        0 <= spec_text_size(rows.take(k)) <= spec_text_size(rows),
    decreases rows.len(),
{
    if rows.len() == 0 {
    } else if k == rows.len() {
        assert(rows.take(k) =~= rows);
        lemma_text_size_mono(rows.drop_last(), rows.len() - 1);
    } else {
        assert(rows.drop_last().take(k) =~= rows.take(k));
        lemma_text_size_mono(rows.drop_last(), k);
    }
}

proof fn lemma_blob_size_mono(rows: Seq<CachedAttachment>, k: int)
    requires
        0 <= k <= rows.len(),
    ensures
        0 <= spec_blob_size(rows.take(k)) <= spec_blob_size(rows),
    decreases rows.len(),
{
    if rows.len() == 0 {
    } else if k == rows.len() {
        assert(rows.take(k) =~= rows);
        lemma_blob_size_mono(rows.drop_last(), rows.len() - 1);
    } else {
        assert(rows.drop_last().take(k) =~= rows.take(k));
        lemma_blob_size_mono(rows.drop_last(), k);
    }
}

/// The categories holding assigned, unread messages of a folder, each with
/// its count, in catalogue order; categories without a hit are left out.
pub open spec fn spec_category_counts(
    cats: Seq<EmailCategory>,
    rows: Seq<CachedEmail>,
    asgs: Seq<CategoryAssignment>,
    folder: Seq<char>,
) -> Seq<(Seq<char>, int)>
    decreases cats.len(),
{
    if cats.len() == 0 {
        Seq::empty()
    } else {
        let n = spec_unread_with_category(rows, asgs, folder, cats.last().id@).len();
        spec_category_counts(cats.drop_last(), rows, asgs, folder) + (if n > 0 {
            seq![(cats.last().id@, n as int)]
        } else {
            Seq::empty()
        })
    }
}

/// The unread rows of a folder carrying a given category.
pub open spec fn spec_unread_with_category(
    rows: Seq<CachedEmail>,
    asgs: Seq<CategoryAssignment>,
    folder: Seq<char>,
    category_id: Seq<char>,
) -> Seq<CachedEmail> {
    rows.filter(
        |e: CachedEmail| e.folder@ == folder && !e.is_read && (match spec_find_asg(
            asgs,
            e.folder@,
            e.uid,
        ) {
            Some(c) => c.category_id@ == category_id,
            None => false,
        }),
    )
}

impl EmailCache {
    /// Cache totals: row counts, text and blob sizes, and the date strings of
    /// the oldest and newest message by parsed date. The counts and sizes
    /// must fit the report's fields.
    pub fn get_stats(&self) -> (r: CacheStats)
        requires
            self.emails@.len() <= u32::MAX,
            self.attachments@.len() <= u32::MAX,
            spec_text_size(self.emails@) + spec_blob_size(self.attachments@) <= u64::MAX,
        ensures
            r.email_count == self.emails@.len(),
            r.attachment_count == self.attachments@.len(),
            r.total_size_bytes == spec_text_size(self.emails@) + spec_blob_size(
                self.attachments@,
            ),
            r.oldest_email is None <==> self.emails@.len() == 0,
            r.newest_email is None <==> self.emails@.len() == 0,
            r.oldest_email matches Some(d) ==> exists|i: int|
                0 <= i < self.emails@.len() && (#[trigger] self.emails@[i]).date@ == d@ && forall|
                    j: int,
                |
                    0 <= j < self.emails@.len() ==> self.emails@[i].date_timestamp <= (
                    #[trigger] self.emails@[j]).date_timestamp,
            r.newest_email matches Some(d) ==> exists|i: int|
                0 <= i < self.emails@.len() && (#[trigger] self.emails@[i]).date@ == d@ && forall|
                    j: int,
                |
                    0 <= j < self.emails@.len() ==> self.emails@[i].date_timestamp >= (
                    #[trigger] self.emails@[j]).date_timestamp,
    {
        let mut text_size: u64 = 0;
        let mut i: usize = 0;
        proof {
            assert(text_size == spec_text_size(self.emails@.take(0)));
        }
        while i < self.emails.len()
            invariant
                i <= self.emails@.len(),
                text_size == spec_text_size(self.emails@.take(i as int)),
                spec_text_size(self.emails@) + spec_blob_size(self.attachments@) <= u64::MAX,
            decreases self.emails@.len() - i,
        {
            proof {
                assert(self.emails@.take(i as int + 1).drop_last() =~= self.emails@.take(i as int));
                assert(self.emails@.take(i as int + 1).last() == self.emails@[i as int]);
                lemma_text_size_mono(self.emails@, i as int + 1);
                lemma_blob_size_mono(self.attachments@, 0);
            }
            let e = &self.emails[i];
            let add = e.subject.as_str().unicode_len() as u64 + e.body_text.as_str().unicode_len()
                as u64 + e.body_html.as_str().unicode_len() as u64;
            text_size = text_size + add;
            i = i + 1;
        }
        proof {
            assert(self.emails@.take(i as int) =~= self.emails@);
        }
        let mut blob_size: u64 = 0;
        let mut k: usize = 0;
        proof {
            assert(blob_size == spec_blob_size(self.attachments@.take(0)));
        }
        while k < self.attachments.len()
            invariant
                k <= self.attachments@.len(),
                blob_size == spec_blob_size(self.attachments@.take(k as int)),
                text_size == spec_text_size(self.emails@),
                spec_text_size(self.emails@) + spec_blob_size(self.attachments@) <= u64::MAX,
                0 <= spec_text_size(self.emails@),
            decreases self.attachments@.len() - k,
        {
            proof {
                assert(self.attachments@.take(k as int + 1).drop_last() =~= self.attachments@.take(
                    k as int,
                ));
                assert(self.attachments@.take(k as int + 1).last() == self.attachments@[k as int]);
                lemma_blob_size_mono(self.attachments@, k as int + 1);
                lemma_text_size_mono(self.emails@, 0);
            }
            let a = &self.attachments[k];
            match &a.data {
                Some(d) => {
                    blob_size = blob_size + d.len() as u64;
                },
                None => {},
            }
            k = k + 1;
        }
        proof {
            assert(self.attachments@.take(k as int) =~= self.attachments@);
            lemma_text_size_mono(self.emails@, self.emails@.len() as int);
            lemma_blob_size_mono(self.attachments@, self.attachments@.len() as int);
        }
        let mut oldest: Option<String> = None;
        let mut newest: Option<String> = None;
        if self.emails.len() > 0 {
            let mut lo: usize = 0;
            let mut hi: usize = 0;
            let mut m: usize = 1;
            while m < self.emails.len()
                invariant
                    lo < self.emails@.len(),
                    hi < self.emails@.len(),
                    m <= self.emails@.len(),
                    forall|j: int|
                        0 <= j < m ==> self.emails@[lo as int].date_timestamp <= (
                        #[trigger] self.emails@[j]).date_timestamp,
                    forall|j: int|
                        0 <= j < m ==> self.emails@[hi as int].date_timestamp >= (
                        #[trigger] self.emails@[j]).date_timestamp,
                decreases self.emails@.len() - m,
            {
                if self.emails[m].date_timestamp < self.emails[lo].date_timestamp {
                    lo = m;
                }
                if self.emails[m].date_timestamp > self.emails[hi].date_timestamp {
                    hi = m;
                }
                m = m + 1;
            }
            oldest = Some(self.emails[lo].date.clone());
            newest = Some(self.emails[hi].date.clone());
        }
        CacheStats {
            email_count: self.emails.len() as u32,
            attachment_count: self.attachments.len() as u32,
            total_size_bytes: text_size + blob_size,
            oldest_email: oldest,
            newest_email: newest,
        }
    }

    /// The category catalogue, in stored (ascending sort) order.
    pub fn get_categories(&self) -> (r: Vec<EmailCategory>)
        ensures
            r@ == self.categories@,
    {
        let mut out: Vec<EmailCategory> = Vec::new();
        let mut i: usize = 0;
        while i < self.categories.len()
            invariant
                i <= self.categories@.len(),
                out@ == self.categories@.take(i as int),
            decreases self.categories@.len() - i,
        {
            let c = &self.categories[i];
            out.push(
                EmailCategory {
                    id: c.id.clone(),
                    name: c.name.clone(),
                    color: c.color.clone(),
                    icon: match &c.icon {
                        Some(v) => Some(v.clone()),
                        None => None,
                    },
                    is_system: c.is_system,
                    sort_order: c.sort_order,
                },
            );
            proof {
                assert(self.categories@.take(i as int + 1) =~= self.categories@.take(
                    i as int,
                ).push(self.categories@[i as int]));
            }
            i = i + 1;
        }
        proof {
            assert(self.categories@.take(i as int) =~= self.categories@);
        }
        out
    }

    /// Whether a category with this id exists.
    fn category_id_taken(&self, id: &str) -> (r: bool)
        ensures
            r == (exists|i: int|
                0 <= i < self.categories@.len() && ((#[trigger] self.categories@[i]).id)@ == id@),
    {
        let mut i: usize = 0;
        while i < self.categories.len()
            invariant
                i <= self.categories@.len(),
                forall|k: int| 0 <= k < i ==> ((#[trigger] self.categories@[k]).id)@ != id@,
            decreases self.categories@.len() - i,
        {
            if str_eq(self.categories[i].id.as_str(), id) {
                proof {
                    assert((self.categories@[i as int].id)@ == id@);
                }
                return true;
            }
            i = i + 1;
        }
        false
    }

    /// Creates a user category under the given id, ordered after every
    /// existing one. A taken id is an error, as is a full sort order.
    pub fn create_category(&mut self, id: &str, name: &str, color: &str, icon: Option<&str>)
        -> (r: Result<(), String>)
        ensures
            r is Err ==> *final(self) == *old(self),
            r is Err ==> (exists|i: int|
                0 <= i < old(self).categories@.len() && ((
                #[trigger] old(self).categories@[i]).id)@ == id@) || (exists|i: int|
                0 <= i < old(self).categories@.len() && (
                #[trigger] old(self).categories@[i]).sort_order == i32::MAX),
            r is Ok ==> ({
                let c = final(self).categories@.last();
                &&& !(exists|i: int|
                    0 <= i < old(self).categories@.len() && ((
                    #[trigger] old(self).categories@[i]).id)@ == id@)
                &&& final(self).categories@ == old(self).categories@.push(c)
                &&& c.id@ == id@
                &&& c.name@ == name@
                &&& c.color@ == color@
                &&& (match icon {
                    Some(v) => c.icon matches Some(w) && w@ == v@,
                    None => c.icon is None,
                })
                &&& !c.is_system
                &&& forall|i: int|
                    0 <= i < old(self).categories@.len() ==> c.sort_order > (
                    #[trigger] old(self).categories@[i]).sort_order
                &&& final(self).emails@ == old(self).emails@
                &&& final(self).attachments@ == old(self).attachments@
                &&& final(self).assignments@ == old(self).assignments@
                &&& final(self).sync_states@ == old(self).sync_states@
                &&& final(self).spam_scans@ == old(self).spam_scans@
                &&& final(self).spam_states@ == old(self).spam_states@
            }),
            spec_cache_wf(*old(self)) ==> spec_cache_wf(*final(self)),
    {
        if self.category_id_taken(id) {
            return Err("category id is taken".to_owned());
        }
        let mut max_order: i32 = 0;
        let mut i: usize = 0;
        while i < self.categories.len()
            invariant
                i <= self.categories@.len(),
                max_order >= 0,
                forall|k: int|
                    0 <= k < i ==> max_order >= (#[trigger] self.categories@[k]).sort_order,
                max_order == 0 || exists|k: int|
                    0 <= k < i && (#[trigger] self.categories@[k]).sort_order == max_order,
            decreases self.categories@.len() - i,
        {
            if self.categories[i].sort_order > max_order {
                max_order = self.categories[i].sort_order;
            }
            i = i + 1;
        }
        if max_order == i32::MAX {
            return Err("category order space is exhausted".to_owned());
        }
        let row = EmailCategory {
            id: id.to_owned(),
            name: name.to_owned(),
            color: color.to_owned(),
            icon: match icon {
                Some(v) => Some(v.to_owned()),
                None => None,
            },
            is_system: false,
            sort_order: max_order + 1,
        };
        self.categories.push(row);
        Ok(())
    }

    /// Renames or recolors a user category; system categories stay as they
    /// are.
    pub fn update_category(&mut self, id: &str, name: &str, color: &str, icon: Option<&str>)
        ensures
            final(self).categories@.len() == old(self).categories@.len(),
            forall|i: int|
                0 <= i < old(self).categories@.len() ==> ({
                    let pre = #[trigger] old(self).categories@[i];
                    let post = final(self).categories@[i];
                    if pre.id@ == id@ && !pre.is_system {
                        &&& post.id == pre.id
                        &&& post.name@ == name@
                        &&& post.color@ == color@
                        &&& (match icon {
                            Some(v) => post.icon matches Some(w) && w@ == v@,
                            None => post.icon is None,
                        })
                        &&& post.is_system == pre.is_system
                        &&& post.sort_order == pre.sort_order
                    } else {
                        post == pre
                    }
                }),
            final(self).emails@ == old(self).emails@,
            final(self).attachments@ == old(self).attachments@,
            final(self).assignments@ == old(self).assignments@,
            final(self).sync_states@ == old(self).sync_states@,
            final(self).spam_scans@ == old(self).spam_scans@,
            final(self).spam_states@ == old(self).spam_states@,
            spec_cache_wf(*old(self)) ==> spec_cache_wf(*final(self)),
    {
        let mut i: usize = 0;
        while i < self.categories.len()
            invariant
                i <= self.categories@.len(),
                self.categories@.len() == old(self).categories@.len(),
                forall|k: int|
                    0 <= k < i ==> ({
                        let pre = #[trigger] old(self).categories@[k];
                        let post = self.categories@[k];
                        if pre.id@ == id@ && !pre.is_system {
                            &&& post.id == pre.id
                            &&& post.name@ == name@
                            &&& post.color@ == color@
                            &&& (match icon {
                                Some(v) => post.icon matches Some(w) && w@ == v@,
                                None => post.icon is None,
                            })
                            &&& post.is_system == pre.is_system
                            &&& post.sort_order == pre.sort_order
                        } else {
                            post == pre
                        }
                    }),
                forall|k: int|
                    i <= k < self.categories@.len() ==> self.categories@[k] == old(
                        self,
                    ).categories@[k],
                self.emails@ == old(self).emails@,
                self.attachments@ == old(self).attachments@,
                self.assignments@ == old(self).assignments@,
                self.sync_states@ == old(self).sync_states@,
                self.spam_scans@ == old(self).spam_scans@,
                self.spam_states@ == old(self).spam_states@,
            decreases self.categories@.len() - i,
        {
            let hit = {
                let c = &self.categories[i];
                str_eq(c.id.as_str(), id) && !c.is_system
            };
            if hit {
                let ghost before = self.categories@;
                let c = self.categories.remove(i);
                let updated = EmailCategory {
                    id: c.id,
                    name: name.to_owned(),
                    color: color.to_owned(),
                    icon: match icon {
                        Some(v) => Some(v.to_owned()),
                        None => None,
                    },
                    is_system: c.is_system,
                    sort_order: c.sort_order,
                };
                self.categories.insert(i, updated);
                proof {
                    assert(self.categories@ =~= before.update(
                        i as int,
                        self.categories@[i as int],
                    ));
                }
            }
            i = i + 1;
        }
    }

    /// Deletes a user category: its assignments go first, then the category
    /// row; system categories stay.
    pub fn delete_category(&mut self, id: &str)
        ensures
            final(self).assignments@ == spec_asgs_without_category(old(self).assignments@, id@),
            final(self).categories@ == spec_cats_without_user_id(old(self).categories@, id@),
            final(self).emails@ == old(self).emails@,
            final(self).attachments@ == old(self).attachments@,
            final(self).sync_states@ == old(self).sync_states@,
            final(self).spam_scans@ == old(self).spam_scans@,
            final(self).spam_states@ == old(self).spam_states@,
            spec_cache_wf(*old(self)) ==> spec_cache_wf(*final(self)),
    {
        let ghost orig = self.assignments@;
        let mut i: usize = 0;
        let ghost mut gj: int = 0;
        proof {
            reveal(Seq::filter);
            assert(orig.take(0) =~= Seq::<CategoryAssignment>::empty());
            assert(self.assignments@ =~= spec_asgs_without_category(orig.take(gj), id@)
                + orig.skip(gj));
        }
        while i < self.assignments.len()
            invariant
                0 <= gj <= orig.len(),
                i == spec_asgs_without_category(orig.take(gj), id@).len(),
                self.assignments@ == spec_asgs_without_category(orig.take(gj), id@) + orig.skip(
                    gj,
                ),
                self.emails@ == old(self).emails@,
                self.attachments@ == old(self).attachments@,
                self.sync_states@ == old(self).sync_states@,
                self.categories@ == old(self).categories@,
                self.spam_scans@ == old(self).spam_scans@,
                self.spam_states@ == old(self).spam_states@,
                orig == old(self).assignments@,
            decreases self.assignments@.len() - i,
        {
            let ghost w = spec_asgs_without_category(orig.take(gj), id@);
            proof {
                assert(self.assignments@.len() == w.len() + orig.skip(gj).len());
                assert(gj < orig.len());
                assert(self.assignments@[i as int] == orig.skip(gj)[0]);
                assert(orig.skip(gj)[0] == orig[gj]);
                assert(orig.take(gj + 1).drop_last() =~= orig.take(gj));
                assert(orig.take(gj + 1).last() == orig[gj]);
                reveal(Seq::filter);
            }
            let hit = str_eq(self.assignments[i].category_id.as_str(), id);
            if hit {
                self.assignments.remove(i);
                proof {
                    assert(self.assignments@ =~= w + orig.skip(gj + 1));
                }
            } else {
                proof {
                    assert(spec_asgs_without_category(orig.take(gj + 1), id@) =~= w.push(
                        orig[gj],
                    ));
                    assert(self.assignments@ =~= spec_asgs_without_category(orig.take(gj + 1), id@)
                        + orig.skip(gj + 1));
                }
                i = i + 1;
            }
            proof {
                gj = gj + 1;
            }
        }
        proof {
            assert(orig.skip(gj) =~= Seq::<CategoryAssignment>::empty());
            assert(orig.take(gj) =~= orig);
            assert(self.assignments@ =~= spec_asgs_without_category(orig, id@));
        }

        let ghost origc = self.categories@;
        let mut ic: usize = 0;
        let ghost mut gc: int = 0;
        proof {
            reveal(Seq::filter);
            assert(origc.take(0) =~= Seq::<EmailCategory>::empty());
            assert(self.categories@ =~= spec_cats_without_user_id(origc.take(gc), id@)
                + origc.skip(gc));
        }
        while ic < self.categories.len()
            invariant
                0 <= gc <= origc.len(),
                ic == spec_cats_without_user_id(origc.take(gc), id@).len(),
                self.categories@ == spec_cats_without_user_id(origc.take(gc), id@) + origc.skip(
                    gc,
                ),
                self.emails@ == old(self).emails@,
                self.attachments@ == old(self).attachments@,
                self.assignments@ == spec_asgs_without_category(old(self).assignments@, id@),
                self.sync_states@ == old(self).sync_states@,
                self.spam_scans@ == old(self).spam_scans@,
                self.spam_states@ == old(self).spam_states@,
                origc == old(self).categories@,
            decreases self.categories@.len() - ic,
        {
            let ghost w = spec_cats_without_user_id(origc.take(gc), id@);
            proof {
                assert(self.categories@.len() == w.len() + origc.skip(gc).len());
                assert(gc < origc.len());
                assert(self.categories@[ic as int] == origc.skip(gc)[0]);
                assert(origc.skip(gc)[0] == origc[gc]);
                assert(origc.take(gc + 1).drop_last() =~= origc.take(gc));
                assert(origc.take(gc + 1).last() == origc[gc]);
                reveal(Seq::filter);
            }
            let hit = {
                let c = &self.categories[ic];
                str_eq(c.id.as_str(), id) && !c.is_system
            };
            if hit {
                self.categories.remove(ic);
                proof {
                    assert(self.categories@ =~= w + origc.skip(gc + 1));
                }
            } else {
                proof {
                    assert(spec_cats_without_user_id(origc.take(gc + 1), id@) =~= w.push(
                        origc[gc],
                    ));
                    assert(self.categories@ =~= spec_cats_without_user_id(origc.take(gc + 1), id@)
                        + origc.skip(gc + 1));
                }
                ic = ic + 1;
            }
            proof {
                gc = gc + 1;
            }
        }
        proof {
            assert(origc.skip(gc) =~= Seq::<EmailCategory>::empty());
            assert(origc.take(gc) =~= origc);
            assert(self.categories@ =~= spec_cats_without_user_id(origc, id@));
            if spec_cache_wf(*old(self)) {
                assert forall|j: int| 0 <= j < self.assignments@.len() implies spec_find_email(
                    self.emails@,
                    (#[trigger] self.assignments@[j]).folder@,
                    self.assignments@[j].uid,
                ) is Some by {
                    assert(spec_asgs_without_category(old(self).assignments@, id@).contains(
                        self.assignments@[j],
                    )) by {
                        assert(spec_asgs_without_category(old(self).assignments@, id@)[j]
                            == self.assignments@[j]);
                    }
                    lemma_asgs_without_category_elem(old(self).assignments@, id@,
                        self.assignments@[j]);
                }
            }
        }
    }

    /// The newest `limit` messages of a folder that still lack a category.
    pub fn get_uncategorized_emails(&self, folder: &str, limit: usize) -> (r: Vec<u32>)
        ensures
            exists|sorted: Seq<CachedEmail>|
                {
                    &&& (#[trigger] sorted.to_multiset()) == spec_uncategorized(
                        self.emails@,
                        self.assignments@,
                        folder@,
                    ).to_multiset()
                    &&& spec_sorted_desc(sorted)
                    &&& r@.len() == (if sorted.len() <= limit as int {
                        sorted.len() as int
                    } else {
                        limit as int
                    })
                    &&& forall|k: int| 0 <= k < r@.len() ==> #[trigger] r@[k] == sorted[k].uid
                },
    {
        let mut rows: Vec<CachedEmail> = Vec::new();
        let mut i: usize = 0;
        proof {
            reveal(Seq::filter);
            assert(rows@ =~= spec_uncategorized(self.emails@.take(0), self.assignments@, folder@));
        }
        while i < self.emails.len()
            invariant
                i <= self.emails@.len(),
                rows@ == spec_uncategorized(self.emails@.take(i as int), self.assignments@,
                    folder@,
                ),
            decreases self.emails@.len() - i,
        {
            proof {
                reveal(Seq::filter);
                assert(self.emails@.take(i as int + 1).drop_last() =~= self.emails@.take(i as int));
                assert(self.emails@.take(i as int + 1).last() == self.emails@[i as int]);
            }
            let e = &self.emails[i];
            let keep = str_eq(e.folder.as_str(), folder) && self.find_asg_idx(
                e.folder.as_str(),
                e.uid,
            ).is_none();
            if keep {
                let row = copy_email(e);
                rows.push(row);
            }
            i = i + 1;
        }
        proof {
            assert(self.emails@.take(i as int) =~= self.emails@);
        }
        let sorted = sort_rows_desc(rows);
        let n = sorted.len();
        let cap: usize = if n <= limit {
            n
        } else {
            limit
        };
        let mut out: Vec<u32> = Vec::new();
        let mut k: usize = 0;
        while k < cap
            invariant
                k <= cap <= sorted@.len(),
                out@.len() == k,
                forall|j: int| 0 <= j < out@.len() ==> #[trigger] out@[j] == sorted@[j].uid,
            decreases cap - k,
        {
            out.push(sorted[k].uid);
            k = k + 1;
        }
        proof {
            let witness = sorted@;
            assert(witness.to_multiset() == spec_uncategorized(
                self.emails@,
                self.assignments@,
                folder@,
            ).to_multiset());
        }
        out
    }

    /// How many messages of a folder still lack a category.
    pub fn get_uncategorized_count(&self, folder: &str) -> (r: usize)
        ensures
            r == spec_uncategorized(self.emails@, self.assignments@, folder@).len(),
    {
        let mut count: usize = 0;
        let mut i: usize = 0;
        proof {
            reveal(Seq::filter);
            assert(count == spec_uncategorized(self.emails@.take(0), self.assignments@,
                folder@,
            ).len());
        }
        while i < self.emails.len()
            invariant
                i <= self.emails@.len(),
                count == spec_uncategorized(self.emails@.take(i as int), self.assignments@,
                    folder@,
                ).len(),
                count <= i,
            decreases self.emails@.len() - i,
        {
            proof {
                reveal(Seq::filter);
                assert(self.emails@.take(i as int + 1).drop_last() =~= self.emails@.take(i as int));
                assert(self.emails@.take(i as int + 1).last() == self.emails@[i as int]);
            }
            let e = &self.emails[i];
            let keep = str_eq(e.folder.as_str(), folder) && self.find_asg_idx(
                e.folder.as_str(),
                e.uid,
            ).is_none();
            if keep {
                count = count + 1;
            }
            i = i + 1;
        }
        proof {
            assert(self.emails@.take(i as int) =~= self.emails@);
        }
        count
    }

    /// The newest messages carrying a category, at most 200, as headers.
    pub fn get_emails_by_category(&self, category_id: &str) -> (r: Vec<EmailHeader>)
        ensures
            r@.len() <= 200,
            exists|sorted: Seq<CachedEmail>|
                {
                    &&& (#[trigger] sorted.to_multiset()) == spec_rows_with_category(
                        self.emails@,
                        self.assignments@,
                        category_id@,
                    ).to_multiset()
                    &&& spec_sorted_desc(sorted)
                    &&& r@.len() == (if sorted.len() <= 200 {
                        sorted.len() as int
                    } else {
                        200int
                    })
                    &&& forall|k: int|
                        0 <= k < r@.len() ==> spec_header_of_row(#[trigger] r@[k], sorted[k])
                },
    {
        let mut rows: Vec<CachedEmail> = Vec::new();
        let mut i: usize = 0;
        proof {
            reveal(Seq::filter);
            assert(rows@ =~= spec_rows_with_category(self.emails@.take(0), self.assignments@,
                category_id@,
            ));
        }
        while i < self.emails.len()
            invariant
                i <= self.emails@.len(),
                rows@ == spec_rows_with_category(self.emails@.take(i as int), self.assignments@,
                    category_id@,
                ),
            decreases self.emails@.len() - i,
        {
            proof {
                reveal(Seq::filter);
                assert(self.emails@.take(i as int + 1).drop_last() =~= self.emails@.take(i as int));
                assert(self.emails@.take(i as int + 1).last() == self.emails@[i as int]);
            }
            let e = &self.emails[i];
            let keep = match self.find_asg_idx(e.folder.as_str(), e.uid) {
                Some(ai) => str_eq(self.assignments[ai].category_id.as_str(), category_id),
                None => false,
            };
            if keep {
                let row = copy_email(e);
                rows.push(row);
            }
            i = i + 1;
        }
        proof {
            assert(self.emails@.take(i as int) =~= self.emails@);
        }
        let sorted = sort_rows_desc(rows);
        let n = sorted.len();
        let cap: usize = if n <= 200 {
            n
        } else {
            200
        };
        let mut out: Vec<EmailHeader> = Vec::new();
        let mut k: usize = 0;
        while k < cap
            invariant
                k <= cap <= sorted@.len(),
                out@.len() == k,
                forall|j: int|
                    0 <= j < out@.len() ==> spec_header_of_row(#[trigger] out@[j], sorted@[j]),
            decreases cap - k,
        {
            let e = &sorted[k];
            out.push(
                EmailHeader {
                    uid: e.uid,
                    subject: e.subject.clone(),
                    from: e.from.clone(),
                    to: e.to.clone(),
                    date: e.date.clone(),
                    is_read: e.is_read,
                    is_flagged: false,
                    is_answered: false,
                    is_draft: false,
                    flags: Vec::new(),
                    has_attachments: e.has_attachments,
                },
            );
            k = k + 1;
        }
        proof {
            let witness = sorted@;
            assert(witness.to_multiset() == spec_rows_with_category(
                self.emails@,
                self.assignments@,
                category_id@,
            ).to_multiset());
        }
        out
    }

    /// Unread-per-category badge counts of a folder, in catalogue order,
    /// leaving out categories without a hit.
    pub fn get_category_counts(&self, folder: &str) -> (r: Vec<(String, u32)>)
        requires
            self.emails@.len() <= u32::MAX,
        ensures
            r@.map_values(|t: (String, u32)| (t.0@, t.1 as int)) == spec_category_counts(
                self.categories@,
                self.emails@,
                self.assignments@,
                folder@,
            ),
    {
        let mut out: Vec<(String, u32)> = Vec::new();
        let mut i: usize = 0;
        proof {
            assert(out@.map_values(|t: (String, u32)| (t.0@, t.1 as int))
                =~= spec_category_counts(self.categories@.take(0), self.emails@,
                self.assignments@, folder@));
        }
        while i < self.categories.len()
            invariant
                i <= self.categories@.len(),
                self.emails@.len() <= u32::MAX,
                out@.map_values(|t: (String, u32)| (t.0@, t.1 as int)) == spec_category_counts(
                    self.categories@.take(i as int),
                    self.emails@,
                    self.assignments@,
                    folder@,
                ),
            decreases self.categories@.len() - i,
        {
            proof {
                assert(self.categories@.take(i as int + 1).drop_last() =~= self.categories@.take(
                    i as int,
                ));
                assert(self.categories@.take(i as int + 1).last() == self.categories@[i as int]);
            }
            let cat = &self.categories[i];
            let count = self.count_unread_with_category(folder, cat.id.as_str());
            if count > 0 {
                out.push((cat.id.clone(), count as u32));
            }
            proof {
                assert(out@.map_values(|t: (String, u32)| (t.0@, t.1 as int))
                    =~= spec_category_counts(self.categories@.take(i as int + 1), self.emails@,
                    self.assignments@, folder@));
            }
            i = i + 1;
        }
        proof {
            assert(self.categories@.take(i as int) =~= self.categories@);
        }
        out
    }

    /// How many unread messages of a folder carry the given category.
    fn count_unread_with_category(&self, folder: &str, category_id: &str) -> (r: usize)
        ensures
            r == spec_unread_with_category(
                self.emails@,
                self.assignments@,
                folder@,
                category_id@,
            ).len(),
    {
        let mut count: usize = 0;
        let mut i: usize = 0;
        proof {
            reveal(Seq::filter);
            assert(count == spec_unread_with_category(self.emails@.take(0), self.assignments@,
                folder@, category_id@).len());
        }
        while i < self.emails.len()
            invariant
                i <= self.emails@.len(),
                count <= i,
                count == spec_unread_with_category(self.emails@.take(i as int), self.assignments@,
                    folder@, category_id@).len(),
            decreases self.emails@.len() - i,
        {
            proof {
                reveal(Seq::filter);
                assert(self.emails@.take(i as int + 1).drop_last() =~= self.emails@.take(i as int));
                assert(self.emails@.take(i as int + 1).last() == self.emails@[i as int]);
            }
            let e = &self.emails[i];
            let hit = str_eq(e.folder.as_str(), folder) && !e.is_read && (match self.find_asg_idx(
                e.folder.as_str(),
                e.uid,
            ) {
                Some(ai) => str_eq(self.assignments[ai].category_id.as_str(), category_id),
                None => false,
            });
            if hit {
                count = count + 1;
            }
            i = i + 1;
        }
        proof {
            assert(self.emails@.take(i as int) =~= self.emails@);
        }
        count
    }
}

/// The assignments left after a category is deleted.
pub open spec fn spec_asgs_without_category(
    rows: Seq<CategoryAssignment>,
    category_id: Seq<char>,
) -> Seq<CategoryAssignment> {
    rows.filter(|c: CategoryAssignment| c.category_id@ != category_id)
}

/// The categories left after a user category is deleted; system rows stay.
pub open spec fn spec_cats_without_user_id(
    rows: Seq<EmailCategory>,
    id: Seq<char>,
) -> Seq<EmailCategory> {
    rows.filter(|c: EmailCategory| !(c.id@ == id && !c.is_system))
}

/// An assignment kept by a category deletion comes from the original table.
proof fn lemma_asgs_without_category_elem(
    s: Seq<CategoryAssignment>,
    id: Seq<char>,
    x: CategoryAssignment,
)
    requires
        spec_asgs_without_category(s, id).contains(x),
    ensures
        s.contains(x),
    decreases s.len(),
{
    reveal(Seq::filter);
    if s.len() > 0 {
        let f = spec_asgs_without_category(s, id);
        let fd = spec_asgs_without_category(s.drop_last(), id);
        if s.last().category_id@ != id && x == s.last() {
            assert(s.contains(x)) by {
                assert(s[s.len() - 1] == x);
            }
        } else {
            assert(fd.contains(x)) by {
                let k = choose|k: int| 0 <= k < f.len() && f[k] == x;
                if s.last().category_id@ != id {
                    assert(f == fd.push(s.last()));
                    assert(k < fd.len());
                    assert(fd[k] == x);
                } else {
                    assert(f == fd);
                }
            }
            lemma_asgs_without_category_elem(s.drop_last(), id, x);
            let k = choose|k: int| 0 <= k < s.drop_last().len() && s.drop_last()[k] == x;
            assert(s[k] == x);
        }
    }
}


/// What chrono's RFC 2822 parser returns for a date string: its UNIX
/// seconds, or nothing; a function of the string alone.
pub uninterp spec fn spec_rfc2822_ts(s: Seq<char>) -> Option<i64>;

/// What chrono's format-string parser returns for a date string and format:
/// UNIX seconds, or nothing; a function of the two strings alone.
pub uninterp spec fn spec_fmt_ts(s: Seq<char>, fmt: Seq<char>) -> Option<i64>;

/// Relies on chrono::DateTime::parse_from_rfc2822 and its timestamp.
#[verifier::external_body]
fn parse_rfc2822_ts(date: &str) -> (r: Option<i64>)
    ensures
        r == spec_rfc2822_ts(date@),
{
    chrono::DateTime::parse_from_rfc2822(date).ok().map(|d| d.timestamp())
}

/// Relies on chrono::DateTime::parse_from_str and its timestamp.
#[verifier::external_body]
fn parse_fmt_ts(date: &str, fmt: &str) -> (r: Option<i64>)
    ensures
        r == spec_fmt_ts(date@, fmt@),
{
    chrono::DateTime::parse_from_str(date, fmt).ok().map(|d| d.timestamp())
}

/// The timestamp a message date string orders by: RFC 2822 first, then the
/// common variants, else the clock reading — the known best-effort quirk.
pub open spec fn spec_date_to_ts(s: Seq<char>, now: i64) -> i64 {
    match spec_rfc2822_ts(s) {
        Some(t) => t,
        None => match spec_fmt_ts(s, "%a, %d %b %Y %H:%M:%S %z"@) {
            Some(t) => t,
            None => match spec_fmt_ts(s, "%d %b %Y %H:%M:%S %z"@) {
                Some(t) => t,
                None => match spec_fmt_ts(s, "%a, %d %b %Y %H:%M:%S %Z"@) {
                    Some(t) => t,
                    None => now,
                },
            },
        },
    }
}

/// Best-effort parses a message date for cache ordering; an unparseable
/// date falls back to the given clock reading.
pub fn parse_date_to_timestamp(date: &str, now: i64) -> (r: i64)
    ensures
        r == spec_date_to_ts(date@, now),
{
    match parse_rfc2822_ts(date) {
        Some(t) => t,
        None => match parse_fmt_ts(date, "%a, %d %b %Y %H:%M:%S %z") {
            Some(t) => t,
            None => match parse_fmt_ts(date, "%d %b %Y %H:%M:%S %z") {
                Some(t) => t,
                None => match parse_fmt_ts(date, "%a, %d %b %Y %H:%M:%S %Z") {
                    Some(t) => t,
                    None => now,
                },
            },
        },
    }
}

} // verus!
