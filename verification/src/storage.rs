//! Persisted account settings and the registry edits on them: upsert by
//! account id and removal by id. The hosting process owns the file I/O and
//! serialization around these values.

use vstd::prelude::*;

use crate::textutil::str_eq;

verus! {

/// A reusable message signature.
#[derive(Clone, Debug)]
pub struct EmailSignature {
    pub id: String,
    pub name: String,
    pub content: String,
    pub is_default: bool,
}

/// Auto-reply settings.
#[derive(Clone, Debug)]
pub struct VacationSettings {
    pub enabled: bool,
    pub subject: String,
    pub message: String,
    pub start_date: Option<String>,
    pub end_date: Option<String>,
}

/// A stored account record; the password is present only when the user opted
/// to save it.
#[derive(Clone, Debug)]
pub struct SavedAccount {
    pub id: String,
    pub display_name: String,
    pub username: String,
    pub imap_host: String,
    pub imap_port: u16,
    pub smtp_host: String,
    pub smtp_port: u16,
    pub password: Option<String>,
    pub cache_enabled: bool,
    pub cache_days: u32,
    pub cache_body: bool,
    pub cache_attachments: bool,
    pub signatures: Vec<EmailSignature>,
    pub vacation: Option<VacationSettings>,
}

/// The whole configuration document.
#[derive(Clone, Debug)]
pub struct AppConfig {
    pub accounts: Vec<SavedAccount>,
}

/// The cache retention default for records that lack the setting.
pub fn default_cache_days() -> (r: u32)
    ensures
        r == 30,
{
    30
}

/// The default for boolean settings that records may lack.
pub fn default_true() -> (r: bool)
    ensures
        r,
{
    true
}

pub open spec fn spec_account_id_is(a: SavedAccount, id: Seq<char>) -> bool {
    a.id@ == id
}

/// The records left after removing one id.
pub open spec fn spec_accounts_without(rows: Seq<SavedAccount>, id: Seq<char>) -> Seq<
    SavedAccount,
> {
    rows.filter(|a: SavedAccount| !spec_account_id_is(a, id))
}

/// Replaces the first record with the same id, or appends the account.
pub fn upsert_account(accounts: &mut Vec<SavedAccount>, account: SavedAccount)
    ensures
        (exists|i: int|
            0 <= i < old(accounts)@.len() && spec_account_id_is(
                #[trigger] old(accounts)@[i],
                account.id@,
            )) ==> exists|i: int|
            {
                &&& 0 <= i < old(accounts)@.len()
                &&& spec_account_id_is(old(accounts)@[i], account.id@)
                &&& final(accounts)@ == old(accounts)@.update(i, account)
            },
        !(exists|i: int|
            0 <= i < old(accounts)@.len() && spec_account_id_is(
                #[trigger] old(accounts)@[i],
                account.id@,
            )) ==> final(accounts)@ == old(accounts)@.push(account),
{
    let mut i: usize = 0;
    while i < accounts.len()
        invariant
            i <= accounts@.len(),
            accounts@ == old(accounts)@,
            forall|k: int|
                0 <= k < i ==> !spec_account_id_is(#[trigger] accounts@[k], account.id@),
        decreases accounts@.len() - i,
    {
        if str_eq(accounts[i].id.as_str(), account.id.as_str()) {
            let ghost before = accounts@;
            let ghost gi = i as int;
            accounts.remove(i);
            accounts.insert(i, account);
            proof {
                assert(accounts@ =~= before.update(gi, accounts@[gi]));
                assert(spec_account_id_is(before[gi], accounts@[gi].id@));
            }
            return ;
        }
        i = i + 1;
    }
    accounts.push(account);
}

/// Removes every record with the given id.
pub fn delete_account(accounts: &mut Vec<SavedAccount>, account_id: &str)
    ensures
        final(accounts)@ == spec_accounts_without(old(accounts)@, account_id@),
{
    let ghost orig = accounts@;
    let mut i: usize = 0;
    let ghost mut gj: int = 0;
    proof {
        reveal(Seq::filter);
        assert(orig.take(0) =~= Seq::<SavedAccount>::empty());
        assert(accounts@ =~= spec_accounts_without(orig.take(gj), account_id@) + orig.skip(gj));
    }
    while i < accounts.len()
        invariant
            0 <= gj <= orig.len(),
            i == spec_accounts_without(orig.take(gj), account_id@).len(),
            accounts@ == spec_accounts_without(orig.take(gj), account_id@) + orig.skip(gj),
            orig == old(accounts)@,
        decreases accounts@.len() - i,
    {
        let ghost w = spec_accounts_without(orig.take(gj), account_id@);
        proof {
            assert(accounts@.len() == w.len() + orig.skip(gj).len());
            assert(gj < orig.len());
            assert(accounts@[i as int] == orig.skip(gj)[0]);
            assert(orig.skip(gj)[0] == orig[gj]);
            assert(orig.take(gj + 1).drop_last() =~= orig.take(gj));
            assert(orig.take(gj + 1).last() == orig[gj]);
            reveal(Seq::filter);
        }
        let hit = str_eq(accounts[i].id.as_str(), account_id);
        if hit {
            accounts.remove(i);
            proof {
                assert(accounts@ =~= w + orig.skip(gj + 1));
            }
        } else {
            proof {
                assert(spec_accounts_without(orig.take(gj + 1), account_id@) =~= w.push(
                    orig[gj],
                ));
                assert(accounts@ =~= spec_accounts_without(orig.take(gj + 1), account_id@)
                    + orig.skip(gj + 1));
            }
            i = i + 1;
        }
        proof {
            gj = gj + 1;
        }
    }
    proof {
        assert(orig.skip(gj) =~= Seq::<SavedAccount>::empty());
        assert(orig.take(gj) =~= orig);
        assert(accounts@ =~= spec_accounts_without(orig, account_id@));
    }
}

} // verus!
