//! What a running server says about itself, inside the data directory it serves.
use crate::text::{decimal, decimal_u64};
use crate::time::Timestamp;
use vstd::prelude::*;
use vstd::string::*;

verus! {

/// The directory inside a data directory that holds what a server says about itself.
pub const STATE_DIR: &'static str = ".flowlite";

/// What a running server says about itself.
#[derive(Clone, Debug)]
pub struct ServeState {
    pub pid: u32,
    pub address: String,
    pub port: u16,
    pub started_at: Timestamp,
    pub version: String,
}

/// What the lock and the state file together say about a data directory.
#[derive(Clone, Debug)]
pub enum ServeStatus {
    Down,
    /// The lock is held and nothing is said yet.
    Starting,
    Up(ServeState),
}

/// A path below another, as the parts of a relative path are put behind one: a separator
/// stands between them unless the first is empty or already ends in one.
pub open spec fn joined_path(dir: Seq<char>, name: Seq<char>) -> Seq<char> {
    if dir.len() == 0 || dir.last() == '/' {
        dir + name
    } else {
        dir + "/"@ + name
    }
}

fn join_path(dir: &str, name: &str) -> (path: String)
    ensures
        path@ == joined_path(dir@, name@),
{
    let mut path = dir.to_owned();
    let n: usize = dir.unicode_len();
    if n > 0 && dir.get_char(n - 1) != '/' {
        path.append("/");
    }
    path.append(name);
    path
}

/// Where a server of a data directory says things about itself.
pub open spec fn state_dir_of(data_dir: Seq<char>) -> Seq<char> {
    joined_path(data_dir, STATE_DIR@)
}

/// Where a server of a data directory says things about itself.
pub fn state_dir(data_dir: &str) -> (path: String)
    ensures
        path@ == state_dir_of(data_dir@),
{
    join_path(data_dir, STATE_DIR)
}

/// The lock that one server of a data directory holds.
pub fn lock_path(data_dir: &str) -> (path: String)
    ensures
        path@ == joined_path(state_dir_of(data_dir@), "serve.lock"@),
{
    join_path(state_dir(data_dir).as_str(), "serve.lock")
}

/// The file in which a server of a data directory says where it is reached.
pub fn state_path(data_dir: &str) -> (path: String)
    ensures
        path@ == joined_path(state_dir_of(data_dir@), "serve.json"@),
{
    join_path(state_dir(data_dir).as_str(), "serve.json")
}

/// The file a server's state is written to before it is moved into place, so that no reader
/// ever sees half of it.
pub fn state_tmp_path(data_dir: &str) -> (path: String)
    ensures
        path@ == joined_path(state_dir_of(data_dir@), "serve.json.tmp"@),
{
    join_path(state_dir(data_dir).as_str(), "serve.json.tmp")
}

/// What trying to take the lock of a data directory came to.
#[derive(Clone, Copy, Debug, PartialEq, Eq, Structural)]
pub enum LockAttempt {
    /// There is no lock file: nothing has ever served the directory.
    NoFile,
    /// It was free, and was taken.
    Taken,
    /// Another process holds it.
    Held,
}

/// What the lock of a data directory and its state file together say.
pub open spec fn told(lock: LockAttempt, state: Option<ServeState>) -> ServeStatus {
    match (lock, state) {
        (LockAttempt::Held, Some(state)) => ServeStatus::Up(state),
        (LockAttempt::Held, None) => ServeStatus::Starting,
        _ => ServeStatus::Down,
    }
}

/// Tells whether a data directory is served, by its lock; the state file is believed only
/// where the lock is held, since a process that died leaves the one behind but not the other.
pub fn status(lock: LockAttempt, state: Option<ServeState>) -> (status: ServeStatus)
    ensures
        status == told(lock, state),
{
    match lock {
        LockAttempt::NoFile => ServeStatus::Down,
        LockAttempt::Taken => ServeStatus::Down,
        LockAttempt::Held => match state {
            Some(state) => ServeStatus::Up(state),
            None => ServeStatus::Starting,
        },
    }
}

/// Why a second server is refused.
pub open spec fn lock_refusal(data_dir: Seq<char>, state: Option<ServeState>) -> Seq<char> {
    match state {
        Some(state) => "another flowlite serve is already running on "@ + data_dir + " (pid "@
            + decimal(state.pid as nat) + ", http://"@ + state.address@ + ":"@ + decimal(
            state.port as nat,
        ) + ")"@,
        None => "another flowlite serve is already starting up on "@ + data_dir,
    }
}

/// Takes the lock of a data directory for a server, or says who has it.
///
/// `taken` tells whether the lock was free. If it was, whatever the state file says is stale
/// and is to be removed.
pub fn acquire(data_dir: &str, taken: bool, state: &Option<ServeState>) -> (r: Result<(), String>)
    ensures
        r is Ok <==> taken,
        r matches Err(e) ==> e@ == lock_refusal(data_dir@, *state),
{
    if taken {
        return Ok(());
    }
    match state {
        Some(state) => {
            let mut e = "another flowlite serve is already running on ".to_owned();
            e.append(data_dir);
            e.append(" (pid ");
            e.append(decimal_u64(state.pid as u64).as_str());
            e.append(", http://");
            e.append(state.address.as_str());
            e.append(":");
            e.append(decimal_u64(state.port as u64).as_str());
            e.append(")");
            Err(e)
        },
        None => {
            let mut e = "another flowlite serve is already starting up on ".to_owned();
            e.append(data_dir);
            Err(e)
        },
    }
}

/// A state file that a process left behind is never believed: where the lock is free, the
/// directory is not served, whatever the file says.
pub proof fn a_free_lock_means_down(lock: LockAttempt, state: Option<ServeState>)
    requires
        !(lock is Held),
    ensures
        told(lock, state) is Down,
{
}

/// A directory is served exactly where its lock is held: by the server its state file names
/// where it names one, and else by one that is starting.
pub proof fn a_held_lock_means_served(
    lock: LockAttempt,
    state: Option<ServeState>,
    named: ServeState,
)
    ensures
        told(lock, state) == ServeStatus::Up(named) <==> lock is Held && state == Some(named),
        told(lock, state) is Starting <==> lock is Held && state is None,
        told(lock, state) is Down <==> (lock is NoFile || lock is Taken),
{
}

/// A path below another begins with that one and ends with the name, with a single separator
/// between them whether or not the first already ends in one; below nothing it is the name.
pub proof fn one_separator_stands_between(dir: Seq<char>, name: Seq<char>)
    ensures
        dir.is_prefix_of(joined_path(dir, name)),
        name.is_suffix_of(joined_path(dir, name)),
        dir.len() == 0 ==> joined_path(dir, name) == name,
        dir.len() > 0 && dir.last() == '/' ==> joined_path(dir, name).len() == dir.len()
            + name.len(),
        dir.len() > 0 && dir.last() != '/' ==> {
            &&& joined_path(dir, name).len() == dir.len() + 1 + name.len()
            &&& joined_path(dir, name)[dir.len() as int] == '/'
            &&& joined_path(dir.push('/'), name) == joined_path(dir, name)
        },
{
    reveal_strlit("/");
    let path = joined_path(dir, name);
    assert(dir =~= path.take(dir.len() as int));
    assert(name =~= path.skip(path.len() - name.len()));
    if dir.len() == 0 {
        assert(path =~= name);
    } else if dir.last() != '/' {
        assert(dir.push('/') =~= dir + "/"@);
        assert(joined_path(dir.push('/'), name) =~= path);
    }
}

} // verus!
