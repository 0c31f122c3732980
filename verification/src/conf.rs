//! Configuration data as the core sees it, after the host has loaded
//! and deserialized the configuration file: per-folder settings,
//! per-account settings, and the whole settings tree.

use vstd::prelude::*;

verus! {

/// Settings of one folder.
#[derive(Debug, PartialEq, Eq)]
pub struct FolderConf {
    pub rename: Option<Vec<u8>>,
    pub autoload: bool,
    pub ignore: bool,
}

impl FolderConf {
    /// The display name this folder was given, if any.
    pub fn rename(&self) -> (r: Option<&Vec<u8>>)
        ensures
            match self.rename {
                Some(ref n) => r matches Some(rn) && rn == n,
                None => r is None,
            },
    {
        self.rename.as_ref()
    }
}

/// How a mailbox index is rendered.
#[derive(Clone, Copy, Debug, PartialEq, Eq, Structural)]
pub enum IndexStyle {
    Plain,
    Threaded,
    Compact,
}

impl Default for IndexStyle {
    /// The default index style is the compact one.
    fn default() -> (r: IndexStyle)
        ensures
            r == IndexStyle::Compact,
    {
        IndexStyle::Compact
    }
}

/// The style a configuration word names: `plain`, `threaded` or
/// `compact`, first letter optionally capital.
pub open spec fn spec_index_from(s: Seq<u8>) -> Option<IndexStyle> {
    if s == seq![80u8, 108u8, 97u8, 105u8, 110u8] || s == seq![112u8, 108u8, 97u8, 105u8, 110u8] {
        Some(IndexStyle::Plain)
    } else if s == seq![84u8, 104u8, 114u8, 101u8, 97u8, 100u8, 101u8, 100u8] || s == seq![
        116u8,
        104u8,
        114u8,
        101u8,
        97u8,
        100u8,
        101u8,
        100u8,
    ] {
        Some(IndexStyle::Threaded)
    } else if s == seq![67u8, 111u8, 109u8, 112u8, 97u8, 99u8, 116u8] || s == seq![
        99u8,
        111u8,
        109u8,
        112u8,
        97u8,
        99u8,
        116u8,
    ] {
        Some(IndexStyle::Compact)
    } else {
        None
    }
}

/// Recognize an index-style word.
pub fn index_from_str(s: &[u8]) -> (r: Option<IndexStyle>)
    ensures
        r == spec_index_from(s@),
{
    let p0: Vec<u8> = vec![80u8, 108u8, 97u8, 105u8, 110u8];
    let p1: Vec<u8> = vec![112u8, 108u8, 97u8, 105u8, 110u8];
    let t0: Vec<u8> = vec![84u8, 104u8, 114u8, 101u8, 97u8, 100u8, 101u8, 100u8];
    let t1: Vec<u8> = vec![116u8, 104u8, 114u8, 101u8, 97u8, 100u8, 101u8, 100u8];
    let c0: Vec<u8> = vec![67u8, 111u8, 109u8, 112u8, 97u8, 99u8, 116u8];
    let c1: Vec<u8> = vec![99u8, 111u8, 109u8, 112u8, 97u8, 99u8, 116u8];
    proof {
        assert(p0@ =~= seq![80u8, 108u8, 97u8, 105u8, 110u8]);
        assert(p1@ =~= seq![112u8, 108u8, 97u8, 105u8, 110u8]);
        assert(t0@ =~= seq![84u8, 104u8, 114u8, 101u8, 97u8, 100u8, 101u8, 100u8]);
        assert(t1@ =~= seq![116u8, 104u8, 114u8, 101u8, 97u8, 100u8, 101u8, 100u8]);
        assert(c0@ =~= seq![67u8, 111u8, 109u8, 112u8, 97u8, 99u8, 116u8]);
        assert(c1@ =~= seq![99u8, 111u8, 109u8, 112u8, 97u8, 99u8, 116u8]);
    }
    if crate::sieve::bytes_eq(s, p0.as_slice()) || crate::sieve::bytes_eq(s, p1.as_slice()) {
        Some(IndexStyle::Plain)
    } else if crate::sieve::bytes_eq(s, t0.as_slice()) || crate::sieve::bytes_eq(
        s,
        t1.as_slice(),
    ) {
        Some(IndexStyle::Threaded)
    } else if crate::sieve::bytes_eq(s, c0.as_slice()) || crate::sieve::bytes_eq(
        s,
        c1.as_slice(),
    ) {
        Some(IndexStyle::Compact)
    } else {
        None
    }
}

/// A folder's settings together with its configured name.
#[derive(Debug, PartialEq, Eq)]
pub struct NamedFolderConf {
    pub name: Vec<u8>,
    pub conf: FolderConf,
}

/// One account as the configuration file spells it.
#[derive(Debug, PartialEq, Eq)]
pub struct FileAccount {
    pub name: Vec<u8>,
    pub root_folder: Vec<u8>,
    pub format: Vec<u8>,
    pub sent_folder: Vec<u8>,
    pub draft_folder: Vec<u8>,
    pub identity: Vec<u8>,
    pub display_name: Option<Vec<u8>>,
    pub index: IndexStyle,
    pub folders: Option<Vec<NamedFolderConf>>,
}

impl FileAccount {
    /// The per-folder settings, if the account lists any.
    pub fn folders(&self) -> (r: Option<&Vec<NamedFolderConf>>)
        ensures
            match self.folders {
                Some(ref f) => r matches Some(rf) && rf == f,
                None => r is None,
            },
    {
        self.folders.as_ref()
    }

    /// The account's root folder path.
    pub fn folder(&self) -> (r: &Vec<u8>)
        ensures
            r == &self.root_folder,
    {
        &self.root_folder
    }

    /// The configured index style.
    pub fn index(&self) -> (r: IndexStyle)
        ensures
            r == self.index,
    {
        self.index
    }
}

/// The account settings the mail backends read.
#[derive(Debug, PartialEq, Eq)]
pub struct AccountSettings {
    pub name: Vec<u8>,
    pub root_folder: Vec<u8>,
    pub format: Vec<u8>,
    pub sent_folder: Vec<u8>,
    pub identity: Vec<u8>,
    pub display_name: Option<Vec<u8>>,
}

/// One account: the backend settings derived from the file, and the
/// file account they came from.
#[derive(Debug, PartialEq, Eq)]
pub struct AccountConf {
    pub account: AccountSettings,
    pub conf: FileAccount,
}

impl AccountConf {
    /// The backend settings.
    pub fn account(&self) -> (r: &AccountSettings)
        ensures
            r == &self.account,
    {
        &self.account
    }

    /// The file account.
    pub fn conf(&self) -> (r: &FileAccount)
        ensures
            r == &self.conf,
    {
        &self.conf
    }

    /// The file account, for updating.
    pub fn conf_mut(&mut self) -> (r: &mut FileAccount)
        ensures
            *r == old(self).conf,
            *final(self) == (AccountConf { conf: *final(r), ..*old(self) }),
    {
        &mut self.conf
    }
}

/// The deserialized configuration file, as the host hands it over.
#[derive(Debug, PartialEq, Eq)]
pub struct FileSettings {
    pub accounts: Vec<FileAccount>,
}

/// The settled configuration.
#[derive(Debug, PartialEq, Eq)]
pub struct Settings {
    pub accounts: Vec<AccountConf>,
}

/// The backend settings an account derives carry the file account's
/// fields over unchanged.
pub open spec fn spec_account_matches(a: &AccountSettings, x: &FileAccount) -> bool {
    &&& a.name@ == x.name@
    &&& a.root_folder@ == x.root_folder@
    &&& a.format@ == x.format@
    &&& a.sent_folder@ == x.sent_folder@
    &&& a.identity@ == x.identity@
    &&& match (&a.display_name, &x.display_name) {
        (Some(d), Some(e)) => d@ == e@,
        (None, None) => true,
        _ => false,
    }
}

impl Settings {
    /// Settle a loaded configuration file: each account keeps its file
    /// form and gains the derived backend settings, in file order. The
    /// format label is compared case-insensitively later, so it is
    /// carried over verbatim.
    pub fn new(fs: FileSettings) -> (r: Settings)
        ensures
            r.accounts@.len() == fs.accounts@.len(),
            forall|i: int|
                0 <= i < fs.accounts@.len() ==> (#[trigger] r.accounts@[i]).conf == fs.accounts@[i]
                    && spec_account_matches(&r.accounts@[i].account, &fs.accounts@[i]),
    {
        let mut accounts: Vec<AccountConf> = Vec::new();
        let mut src = fs.accounts;
        let ghost gsrc = src@;
        let n = src.len();
        let mut i: usize = 0;
        while i < n
            invariant
                i <= n,
                n == gsrc.len(),
                src@ == gsrc.subrange(i as int, gsrc.len() as int),
                accounts@.len() == i,
                forall|j: int|
                    0 <= j < i ==> (#[trigger] accounts@[j]).conf == gsrc[j]
                        && spec_account_matches(&accounts@[j].account, &gsrc[j]),
            decreases n - i,
        {
            let x = src.remove(0);
            proof {
                assert(x == gsrc[i as int]);
                assert(src@ =~= gsrc.subrange((i + 1) as int, gsrc.len() as int));
            }
            let mut name2: Vec<u8> = Vec::new();
            copy_into(&x.name, &mut name2);
            let mut rf: Vec<u8> = Vec::new();
            let mut fm: Vec<u8> = Vec::new();
            let mut sf: Vec<u8> = Vec::new();
            let mut id: Vec<u8> = Vec::new();
            copy_into(&x.root_folder, &mut rf);
            copy_into(&x.format, &mut fm);
            copy_into(&x.sent_folder, &mut sf);
            copy_into(&x.identity, &mut id);
            let dn = match &x.display_name {
                Some(d) => {
                    let mut d2: Vec<u8> = Vec::new();
                    copy_into(d, &mut d2);
                    Some(d2)
                },
                None => None,
            };
            let acc = AccountSettings {
                name: name2,
                root_folder: rf,
                format: fm,
                sent_folder: sf,
                identity: id,
                display_name: dn,
            };
            accounts.push(AccountConf { account: acc, conf: x });
            i = i + 1;
        }
        Settings { accounts }
    }
}

/// Replace the contents of `dst` with a copy of `src`.
#[verifier::loop_isolation(false)]
pub fn copy_into(src: &Vec<u8>, dst: &mut Vec<u8>)
    ensures
        final(dst)@ == src@,
{
    dst.clear();
    let n = src.len();
    let mut k: usize = 0;
    while k < n
        invariant
            k <= n,
            dst@ == src@.subrange(0, k as int),
        decreases n - k,
    {
        dst.push(src[k]);
        proof {
            assert(dst@ =~= src@.subrange(0, (k + 1) as int));
        }
        k = k + 1;
    }
    proof {
        assert(dst@ =~= src@);
    }
}

} // verus!
