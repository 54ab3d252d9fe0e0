//! The accounts that deployment connects as, and their ssh arguments.

use vstd::prelude::*;

use crate::page::strings;
use crate::text::{chars_of, is_whitespace, owned, push_str, string_of, whitespace_char};
use vstd::slice::slice_subrange;

verus! {

/// The account that a deployment connects as.
#[derive(Clone, Copy, Debug, PartialEq, Eq, Structural)]
pub enum SshAs {
    User,
    Root,
}

/// The display name of an account.
pub open spec fn ssh_name(s: SshAs) -> Seq<char> {
    match s {
        SshAs::User => "User"@,
        SshAs::Root => "Root"@,
    }
}

/// The index just past the run of characters without white space that starts
/// at `i`.
pub open spec fn word_end(s: Seq<char>, i: int) -> int
    decreases s.len() - i,
{
    if i < 0 || i >= s.len() || whitespace_char(s[i]) {
        i
    } else {
        word_end(s, i + 1)
    }
}

/// The words of `s` from `i` on: its longest runs of characters without white
/// space, in order.
pub open spec fn words_from(s: Seq<char>, i: int) -> Seq<Seq<char>>
    decreases s.len() - i,
{
    if i < 0 || i >= s.len() {
        Seq::empty()
    } else if whitespace_char(s[i]) {
        words_from(s, i + 1)
    } else {
        let j = word_end(s, i);
        if j <= i || j > s.len() {
            Seq::empty()
        } else {
            seq![s.subrange(i, j)] + words_from(s, j)
        }
    }
}

/// The words of `s`.
fn split_words(s: &str) -> (r: Vec<String>)
    ensures
        strings(r@) == words_from(s@, 0),
{
    let v = chars_of(s);
    let n = v.len();
    let mut out: Vec<String> = Vec::new();
    let mut i: usize = 0;
    assert(strings(out@) =~= Seq::<Seq<char>>::empty());
    while i < n
        invariant
            n == v@.len(),
            v@ == s@,
            i <= n,
            words_from(v@, 0) == strings(out@) + words_from(v@, i as int),
        decreases n - i,
    {
        if is_whitespace(v[i]) {
            i = i + 1;
        } else {
            let mut j = i + 1;
            while j < n && !is_whitespace(v[j])
                invariant
                    i < j <= n,
                    n == v@.len(),
                    word_end(v@, i as int) == word_end(v@, j as int),
                decreases n - j,
            {
                j = j + 1;
            }
            let ghost before = strings(out@);
            out.push(string_of(slice_subrange(v.as_slice(), i, j)));
            assert(strings(out@) =~= before.push(v@.subrange(i as int, j as int)));
            assert(before + (seq![v@.subrange(i as int, j as int)] + words_from(v@, j as int))
                =~= before.push(v@.subrange(i as int, j as int)) + words_from(v@, j as int));
            i = j;
        }
    }
    assert(strings(out@) + Seq::<Seq<char>>::empty() =~= strings(out@));
    out
}

/// The login that the account uses when none is configured.
pub open spec fn default_login(a: SshAs) -> Seq<char> {
    match a {
        SshAs::User => "ject"@,
        SshAs::Root => "ject-root"@,
    }
}

/// The leading arguments of an ssh command for the account: the words of the
/// configured value, or of the default login where none is configured or the
/// configured one is blank.
pub open spec fn ssh_args_of(a: SshAs, configured: Option<Seq<char>>) -> Seq<Seq<char>> {
    match configured {
        Some(c) => if words_from(c, 0).len() > 0 {
            words_from(c, 0)
        } else {
            words_from(default_login(a), 0)
        },
        None => words_from(default_login(a), 0),
    }
}

impl SshAs {
    /// The environment variable that configures the account's login.
    pub fn env_key(self) -> (r: &'static str)
        ensures
            self == SshAs::User ==> r@ == "JECT_SSH_USER"@,
            self == SshAs::Root ==> r@ == "JECT_SSH_ROOT"@,
    {
        match self {
            SshAs::User => "JECT_SSH_USER",
            SshAs::Root => "JECT_SSH_ROOT",
        }
    }

    /// The leading arguments of an ssh command for the account, given the
    /// configured login if there is one: its words, or those of the default
    /// login (`ject`, `ject-root`) where it is missing or blank.
    pub fn ssh_args(self, configured: Option<&str>) -> (r: Vec<String>)
        ensures
            strings(r@) == ssh_args_of(
                self,
                match configured {
                    Some(c) => Some(c@),
                    None => None,
                },
            ),
    {
        if let Some(c) = configured {
            let w = split_words(c);
            if w.len() > 0 {
                return w;
            }
        }
        let default = match self {
            SshAs::User => "ject",
            SshAs::Root => "ject-root",
        };
        split_words(default)
    }

    /// The display name of the account.
    pub fn name(self) -> (r: &'static str)
        ensures
            r@ == ssh_name(self),
    {
        match self {
            SshAs::User => "User",
            SshAs::Root => "Root",
        }
    }

    /// The remote command that checks a connection as this account.
    pub fn check_command(self) -> (r: String)
        ensures
            r@ == "echo 'Checking connection for SshAs::"@ + ssh_name(self) + "'"@,
    {
        let mut r = owned("echo 'Checking connection for SshAs::");
        push_str(&mut r, self.name());
        push_str(&mut r, "'");
        r
    }
}

/// What running an account's check command gave: whether it succeeded, and
/// the command and its exit status as the caller shows them.
#[derive(Clone, Debug)]
pub struct CheckRun {
    pub succeeded: bool,
    pub command: String,
    pub status: String,
}

/// The message for a check command that failed.
pub open spec fn failure_message(command: Seq<char>, status: Seq<char>) -> Seq<char> {
    "Command "@ + command + " failed with status "@ + status
}

/// An account whose connection was checked.
#[derive(Clone, Copy, Debug)]
pub struct CheckedSsh {
    ssh_as: SshAs,
}

/// Both accounts, checked.
#[derive(Clone, Copy, Debug)]
pub struct Both {
    pub user: CheckedSsh,
    pub root: CheckedSsh,
}

impl CheckedSsh {
    /// The account that was checked.
    pub closed spec fn account(self) -> SshAs {
        self.ssh_as
    }

    /// The account that was checked.
    pub fn ssh_as(&self) -> (r: SshAs)
        ensures
            r == self.account(),
    {
        self.ssh_as
    }

    /// The checked account `ssh_as`, if its check command succeeded; else the
    /// message that names the command and the status it ended with.
    pub fn acquire(ssh_as: SshAs, run: &CheckRun) -> (r: Result<CheckedSsh, String>)
        ensures
            run.succeeded ==> (r matches Ok(c) && c.account() == ssh_as),
            !run.succeeded ==> (r matches Err(m) && m@ == failure_message(run.command@, run.status@)),
    {
        if run.succeeded {
            Ok(CheckedSsh { ssh_as })
        } else {
            let mut m = owned("Command ");
            push_str(&mut m, run.command.as_str());
            push_str(&mut m, " failed with status ");
            push_str(&mut m, run.status.as_str());
            Err(m)
        }
    }

    /// The user account, if its check succeeded.
    pub fn user(run: &CheckRun) -> (r: Result<CheckedSsh, String>)
        ensures
            run.succeeded ==> (r matches Ok(c) && c.account() == SshAs::User),
            !run.succeeded ==> (r matches Err(m) && m@ == failure_message(run.command@, run.status@)),
    {
        Self::acquire(SshAs::User, run)
    }

    /// The root account, if its check succeeded.
    pub fn root(run: &CheckRun) -> (r: Result<CheckedSsh, String>)
        ensures
            run.succeeded ==> (r matches Ok(c) && c.account() == SshAs::Root),
            !run.succeeded ==> (r matches Err(m) && m@ == failure_message(run.command@, run.status@)),
    {
        Self::acquire(SshAs::Root, run)
    }

    /// Both accounts, if both checks succeeded; else the failure of the first
    /// check, user before root, that did not.
    pub fn both(user_run: &CheckRun, root_run: &CheckRun) -> (r: Result<Both, String>)
        ensures
            user_run.succeeded && root_run.succeeded ==> (r matches Ok(b) && b.user.account()
                == SshAs::User && b.root.account() == SshAs::Root),
            !user_run.succeeded ==> (r matches Err(m) && m@ == failure_message(
                user_run.command@,
                user_run.status@,
            )),
            user_run.succeeded && !root_run.succeeded ==> (r matches Err(m) && m@
                == failure_message(root_run.command@, root_run.status@)),
    {
        let user = match Self::user(user_run) {
            Ok(c) => c,
            Err(e) => return Err(e),
        };
        let root = match Self::root(root_run) {
            Ok(c) => c,
            Err(e) => return Err(e),
        };
        Ok(Both { user, root })
    }
}

} // verus!
