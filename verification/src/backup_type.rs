//! The kinds of backup a datastore holds.

use crate::error::PathError;
use std::cmp::Ordering;
use vstd::prelude::*;

verus! {

/// The kind of a backup.
#[derive(Clone, Copy, Debug, Hash, PartialEq, Eq, Structural)]
pub enum BackupType {
    /// Virtual machines.
    Vm,
    /// Containers.
    Ct,
    /// Hosts.
    Host,
}

/// The order of two ranks as a sign: -1, 0 or 1.
pub open spec fn sign_of(a: int, b: int) -> int {
    if a < b {
        -1
    } else if a == b {
        0
    } else {
        1
    }
}

/// The sign that an ordering stands for.
pub open spec fn sign_of_ordering(o: Ordering) -> int {
    match o {
        Ordering::Less => -1,
        Ordering::Equal => 0,
        Ordering::Greater => 1,
    }
}

impl BackupType {
    /// The text of the type: `vm`, `ct` or `host`.
    pub open spec fn text(self) -> Seq<char> {
        match self {
            BackupType::Vm => seq!['v', 'm'],
            BackupType::Ct => seq!['c', 't'],
            BackupType::Host => seq!['h', 'o', 's', 't'],
        }
    }

    /// The rank by which types are ordered: containers, hosts, virtual
    /// machines. It is the alphabetical order of their texts, kept as a
    /// table of its own.
    pub open spec fn rank(self) -> int {
        match self {
            BackupType::Ct => 0,
            BackupType::Host => 1,
            BackupType::Vm => 2,
        }
    }

    /// The type that a text names, if any.
    pub open spec fn of_text(s: Seq<char>) -> Option<BackupType> {
        if s == BackupType::Ct.text() {
            Some(BackupType::Ct)
        } else if s == BackupType::Host.text() {
            Some(BackupType::Host)
        } else if s == BackupType::Vm.text() {
            Some(BackupType::Vm)
        } else {
            None
        }
    }

    /// The text of the type.
    pub fn as_str(&self) -> (r: &'static str)
        ensures
            r@ == self.text(),
    {
        proof {
            reveal_strlit("vm");
            reveal_strlit("ct");
            reveal_strlit("host");
        }
        match self {
            BackupType::Vm => {
                assert("vm"@ =~= BackupType::Vm.text());
                "vm"
            },
            BackupType::Ct => {
                assert("ct"@ =~= BackupType::Ct.text());
                "ct"
            },
            BackupType::Host => {
                assert("host"@ =~= BackupType::Host.text());
                "host"
            },
        }
    }

    /// The text of the type, owned.
    pub fn to_string(&self) -> (r: String)
        ensures
            r@ == self.text(),
    {
        self.as_str().to_owned()
    }

    /// The rank by which types are ordered.
    pub fn order(self) -> (r: u8)
        ensures
            r == self.rank(),
    {
        match self {
            BackupType::Ct => 0,
            BackupType::Host => 1,
            BackupType::Vm => 2,
        }
    }

    /// All types.
    pub fn iter() -> (r: [BackupType; 3])
        ensures
            r@ == seq![BackupType::Vm, BackupType::Ct, BackupType::Host],
    {
        let r = [BackupType::Vm, BackupType::Ct, BackupType::Host];
        assert(r@ =~= seq![BackupType::Vm, BackupType::Ct, BackupType::Host]);
        r
    }

    /// The type that the characters `s` name.
    pub fn from_chars(s: &Vec<char>) -> (r: Result<BackupType, PathError>)
        ensures
            r == match BackupType::of_text(s@) {
                Some(ty) => Ok::<BackupType, PathError>(ty),
                None => Err::<BackupType, PathError>(PathError::InvalidBackupType),
            },
    {
        if s.len() == 2 && s[0] == 'c' && s[1] == 't' {
            assert(s@ =~= BackupType::Ct.text());
            Ok(BackupType::Ct)
        } else if s.len() == 4 && s[0] == 'h' && s[1] == 'o' && s[2] == 's' && s[3] == 't' {
            assert(s@ =~= BackupType::Host.text());
            Ok(BackupType::Host)
        } else if s.len() == 2 && s[0] == 'v' && s[1] == 'm' {
            assert(s@ =~= BackupType::Vm.text());
            Ok(BackupType::Vm)
        } else {
            proof {
                let ct = BackupType::Ct.text();
                let host = BackupType::Host.text();
                let vm = BackupType::Vm.text();
                if s@ == ct {
                    assert(s@[0] == ct[0] && s@[1] == ct[1]);
                }
                if s@ == host {
                    assert(s@[0] == host[0] && s@[1] == host[1] && s@[2] == host[2] && s@[3]
                        == host[3]);
                }
                if s@ == vm {
                    assert(s@[0] == vm[0] && s@[1] == vm[1]);
                }
            }
            Err(PathError::InvalidBackupType)
        }
    }

    /// Parses `vm`, `ct` or `host`.
    pub fn from_str(ty: &str) -> (r: Result<BackupType, PathError>)
        ensures
            r == match BackupType::of_text(ty@) {
                Some(ty) => Ok::<BackupType, PathError>(ty),
                None => Err::<BackupType, PathError>(PathError::InvalidBackupType),
            },
    {
        let chars = crate::text::chars_of(ty);
        BackupType::from_chars(&chars)
    }

    /// The order of two types by rank.
    pub fn cmp(&self, other: &Self) -> (r: Ordering)
        ensures
            sign_of_ordering(r) == sign_of(self.rank(), other.rank()),
    {
        let a = self.order();
        let b = other.order();
        if a < b {
            Ordering::Less
        } else if a == b {
            Ordering::Equal
        } else {
            Ordering::Greater
        }
    }
}

/// Every type parses from its own text, and only from it.
pub proof fn lemma_backup_type_text(ty: BackupType)
    ensures
        BackupType::of_text(ty.text()) == Some(ty),
        forall|s: Seq<char>| BackupType::of_text(s) == Some(ty) ==> s == ty.text(),
        crate::text::is_safe_id(ty.text()),
{
    let ct = BackupType::Ct.text();
    let host = BackupType::Host.text();
    let vm = BackupType::Vm.text();
    assert(ct.len() == 2 && host.len() == 4 && vm.len() == 2);
    assert(ct[0] == 'c' && vm[0] == 'v');
    assert(host[0] == 'h' && host[1] == 'o' && host[2] == 's' && host[3] == 't');
    assert(ct[1] == 't' && vm[1] == 'm');
}

impl PartialOrd for BackupType {
    /// The order of two types by rank.
    fn partial_cmp(&self, other: &Self) -> (r: Option<Ordering>) {
        Some(self.cmp(other))
    }
}

impl vstd::std_specs::cmp::PartialOrdSpecImpl for BackupType {
    open spec fn obeys_partial_cmp_spec() -> bool {
        true
    }

    open spec fn partial_cmp_spec(&self, other: &Self) -> Option<Ordering> {
        if self.rank() < other.rank() {
            Some(Ordering::Less)
        } else if self.rank() == other.rank() {
            Some(Ordering::Equal)
        } else {
            Some(Ordering::Greater)
        }
    }
}

} // verus!
