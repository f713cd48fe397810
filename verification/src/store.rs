//! The account and task store: in-memory state for users, tasks and the
//! single active session, with the ownership and session rules that every
//! operation enforces.

use vstd::prelude::*;

verus! {

/// A task owned by one account. `created_at` counts whole seconds since the
/// Unix epoch.
#[derive(Debug, PartialEq)]
pub struct Task {
    pub id: u32,
    pub title: String,
    pub description: String,
    pub completed: bool,
    pub created_at: i64,
    pub user_id: String,
}

/// An account record. The password is stored and compared as plain text,
/// mirroring the persisted layout; this is a documented weakness of the
/// format, not a recommendation.
#[derive(Debug, PartialEq)]
pub struct User {
    pub username: String,
    pub password: String,
}

/// Every way a store operation can fail.
#[derive(Debug, Clone, Copy, PartialEq, Eq, Structural)]
pub enum Error {
    DuplicateUsername,
    InvalidCredentials,
    NotLoggedIn,
    TaskNotFound,
    NotAuthorized,
    CorruptState,
    IoFailure,
}

impl Error {
    /// The message the command-line shell prints for this error.
    pub fn message(&self) -> (r: &'static str)
        ensures
            self is DuplicateUsername ==> r@ == "Username already exists"@,
            self is InvalidCredentials ==> r@ == "Invalid username or password"@,
            self is NotLoggedIn ==> r@ == "Not logged in"@,
            self is TaskNotFound ==> r@ == "Task not found"@,
            self is NotAuthorized ==> r@ == "Not authorized to modify the task"@,
            self is CorruptState ==> r@ == "Persisted data is corrupt"@,
            self is IoFailure ==> r@ == "Failed to save data"@,
    {
        match self {
            Error::DuplicateUsername => "Username already exists",
            Error::InvalidCredentials => "Invalid username or password",
            Error::NotLoggedIn => "Not logged in",
            Error::TaskNotFound => "Task not found",
            Error::NotAuthorized => "Not authorized to modify the task",
            Error::CorruptState => "Persisted data is corrupt",
            Error::IoFailure => "Failed to save data",
        }
    }
}

/// The mathematical value of a [`Task`].
pub ghost struct TaskV {
    pub id: u32,
    pub title: Seq<char>,
    pub description: Seq<char>,
    pub completed: bool,
    pub created_at: i64,
    pub user_id: Seq<char>,
}

/// The mathematical value of a [`User`].
pub ghost struct UserV {
    pub username: Seq<char>,
    pub password: Seq<char>,
}

impl View for Task {
    type V = TaskV;

    open spec fn view(&self) -> TaskV {
        TaskV {
            id: self.id,
            title: self.title@,
            description: self.description@,
            completed: self.completed,
            created_at: self.created_at,
            user_id: self.user_id@,
        }
    }
}

impl View for User {
    type V = UserV;

    open spec fn view(&self) -> UserV {
        UserV { username: self.username@, password: self.password@ }
    }
}

impl Clone for Task {
    fn clone(&self) -> (r: Task)
        ensures
            r@ == self@,
    {
        Task {
            id: self.id,
            title: self.title.clone(),
            description: self.description.clone(),
            completed: self.completed,
            created_at: self.created_at,
            user_id: self.user_id.clone(),
        }
    }
}

impl Clone for User {
    fn clone(&self) -> (r: User)
        ensures
            r@ == self@,
    {
        User { username: self.username.clone(), password: self.password.clone() }
    }
}

pub open spec fn task_views(ts: Seq<Task>) -> Seq<TaskV> {
    ts.map_values(|t: Task| t@)
}

pub open spec fn user_views(us: Seq<User>) -> Seq<UserV> {
    us.map_values(|u: User| u@)
}

/// Whether some task in `ts` carries the id `id`.
pub open spec fn has_task(ts: Seq<TaskV>, id: u32) -> bool {
    exists|i: int| 0 <= i < ts.len() && ts[i].id == id
}

/// The index of the task with id `id`; meaningful only when `has_task` holds
/// and ids are unique.
pub open spec fn task_at(ts: Seq<TaskV>, id: u32) -> int {
    choose|i: int| 0 <= i < ts.len() && ts[i].id == id
}

/// Whether some account in `us` has the name `name`.
pub open spec fn has_username(us: Seq<UserV>, name: Seq<char>) -> bool {
    exists|i: int| 0 <= i < us.len() && us[i].username == name
}

/// Whether `us` holds an account whose name and password match exactly.
pub open spec fn credentials_ok(us: Seq<UserV>, name: Seq<char>, pw: Seq<char>) -> bool {
    exists|i: int| 0 <= i < us.len() && us[i].username == name && us[i].password == pw
}

/// The mathematical value of the whole store.
pub ghost struct StoreV {
    pub tasks: Seq<TaskV>,
    pub users: Seq<UserV>,
    pub current_user: Option<Seq<char>>,
    pub next_task_id: u32,
}

/// The subsequence of `ts` whose tasks belong to the account named `name`,
/// in store order.
pub open spec fn owned_by(ts: Seq<TaskV>, name: Seq<char>) -> Seq<TaskV>
    decreases ts.len(),
{
    if ts.len() == 0 {
        Seq::empty()
    } else {
        let rest = owned_by(ts.drop_last(), name);
        if ts.last().user_id == name {
            rest.push(ts.last())
        } else {
            rest
        }
    }
}

/// The tasks of `s` that belong to the account named `name`, in store order.
pub open spec fn tasks_of(s: StoreV, name: Seq<char>) -> Seq<TaskV> {
    owned_by(s.tasks, name)
}

/// Task ids at least 1 and strictly increasing, with room left to allocate
/// one more: what a loaded task collection must look like.
pub open spec fn valid_tasks(ts: Seq<TaskV>) -> bool {
    &&& forall|i: int, j: int| 0 <= i < j < ts.len() ==> ts[i].id < ts[j].id
    &&& forall|i: int| 0 <= i < ts.len() ==> 1 <= (#[trigger] ts[i]).id
    &&& ts.len() > 0 ==> ts.last().id < u32::MAX
}

/// Pairwise distinct usernames: what a loaded user collection must look like.
pub open spec fn valid_users(us: Seq<UserV>) -> bool {
    forall|i: int, j: int| 0 <= i < j < us.len() ==> us[i].username != us[j].username
}

impl StoreV {
    /// Well-formedness: task ids are at least 1, strictly increasing in store
    /// order (hence unique, and the last one is the greatest), and below the
    /// allocation counter; usernames are unique; an active session always
    /// names a registered account.
    pub open spec fn wf(self) -> bool {
        &&& forall|i: int, j: int|
            0 <= i < j < self.tasks.len() ==> self.tasks[i].id < self.tasks[j].id
        &&& forall|i: int|
            0 <= i < self.tasks.len() ==> 1 <= (#[trigger] self.tasks[i]).id < self.next_task_id
        &&& 1 <= self.next_task_id
        &&& forall|i: int, j: int|
            0 <= i < j < self.users.len() ==> self.users[i].username != self.users[j].username
        &&& self.current_user matches Some(name) ==> has_username(self.users, name)
    }
}

/// The store itself: the two collections, the session, and the id counter.
#[derive(Debug)]
pub struct TodoApp {
    pub tasks: Vec<Task>,
    pub users: Vec<User>,
    pub current_user: Option<String>,
    pub next_task_id: u32,
}

impl View for TodoApp {
    type V = StoreV;

    open spec fn view(&self) -> StoreV {
        StoreV {
            tasks: task_views(self.tasks@),
            users: user_views(self.users@),
            current_user: match self.current_user {
                Some(u) => Some(u@),
                None => None,
            },
            next_task_id: self.next_task_id,
        }
    }
}

/// Relies on `chrono::Utc::now`, reduced to whole seconds since the Unix
/// epoch by `DateTime::timestamp`. The value depends on the wall clock, so
/// nothing is assumed of it. `Utc::now` itself panics when the system clock
/// is set before the epoch.
#[verifier::external_body]
fn now_timestamp() -> i64 {
    chrono::Utc::now().timestamp()
}

impl TodoApp {
    /// An empty store: no accounts, no tasks, nobody logged in, ids start at 1.
    pub fn new() -> (r: TodoApp)
        ensures
            r@.wf(),
            r@.tasks.len() == 0,
            r@.users.len() == 0,
            r@.current_user is None,
            r@.next_task_id == 1,
    {
        TodoApp { tasks: Vec::new(), users: Vec::new(), current_user: None, next_task_id: 1 }
    }

    /// Registers a new account. Fails with `DuplicateUsername` exactly when
    /// the name is already taken (case-sensitive, exact match); otherwise the
    /// record is appended and nothing else changes.
    pub fn register(&mut self, username: &String, password: &String) -> (r: Result<(), Error>)
        requires
            old(self)@.wf(),
        ensures
            final(self)@.wf(),
            has_username(old(self)@.users, username@) ==> {
                &&& r == Err::<(), Error>(Error::DuplicateUsername)
                &&& final(self)@ == old(self)@
            },
            !has_username(old(self)@.users, username@) ==> {
                &&& r == Ok::<(), Error>(())
                &&& final(self)@.users == old(self)@.users.push(
                    UserV { username: username@, password: password@ },
                )
                &&& final(self)@.tasks == old(self)@.tasks
                &&& final(self)@.current_user == old(self)@.current_user
                &&& final(self)@.next_task_id == old(self)@.next_task_id
            },
    {
        let n = self.users.len();
        let mut i: usize = 0;
        while i < n
            invariant
                n == self.users.len(),
                i <= n,
                *self == *old(self),
                self@.wf(),
                forall|j: int| 0 <= j < i ==> self@.users[j].username != username@,
            decreases n - i,
        {
            if self.users[i].username == *username {
                proof {
                    assert(self@.users[i as int].username == username@);
                }
                return Err(Error::DuplicateUsername);
            }
            i += 1;
        }
        let ghost pre = self@;
        self.users.push(User { username: username.clone(), password: password.clone() });
        proof {
            assert(self@.users =~= pre.users.push(
                UserV { username: username@, password: password@ },
            ));
            assert(self@.tasks == pre.tasks);
            assert(self@.current_user == pre.current_user);
            assert(self@.next_task_id == pre.next_task_id);
            assert forall|a: int, b: int|
                0 <= a < b < self@.users.len() implies self@.users[a].username
                != self@.users[b].username by {
                if b < pre.users.len() as int {
                    assert(pre.users[a].username != pre.users[b].username);
                } else {
                    assert(self@.users[b].username == username@);
                    assert(pre.users[a].username != username@);
                }
            }
            match pre.current_user {
                Some(name) => {
                    let k = choose|k: int|
                        0 <= k < pre.users.len() && pre.users[k].username == name;
                    assert(self@.users[k].username == name);
                    assert(has_username(self@.users, name));
                },
                None => {},
            }
        }
        Ok(())
    }

    /// Logs a user in. Succeeds exactly when an account matches both the
    /// username and the password; then the session identity is set and
    /// nothing else changes. On failure the store is untouched.
    pub fn login(&mut self, username: &String, password: &String) -> (r: Result<(), Error>)
        requires
            old(self)@.wf(),
        ensures
            final(self)@.wf(),
            credentials_ok(old(self)@.users, username@, password@) ==> {
                &&& r == Ok::<(), Error>(())
                &&& final(self)@.current_user == Some(username@)
                &&& final(self)@.tasks == old(self)@.tasks
                &&& final(self)@.users == old(self)@.users
                &&& final(self)@.next_task_id == old(self)@.next_task_id
            },
            !credentials_ok(old(self)@.users, username@, password@) ==> {
                &&& r == Err::<(), Error>(Error::InvalidCredentials)
                &&& final(self)@ == old(self)@
            },
    {
        let n = self.users.len();
        let mut i: usize = 0;
        while i < n
            invariant
                n == self.users.len(),
                i <= n,
                *self == *old(self),
                self@.wf(),
                forall|j: int| 0 <= j < i ==> self@.users[j].username != username@,
            decreases n - i,
        {
            if self.users[i].username == *username {
                proof {
                    assert(self@.users[i as int].username == username@);
                }
                if self.users[i].password == *password {
                    proof {
                        assert(credentials_ok(self@.users, username@, password@));
                    }
                    self.current_user = Some(username.clone());
                    proof {
                        assert(self@.tasks == old(self)@.tasks);
                        assert(self@.users == old(self)@.users);
                        assert(self@.next_task_id == old(self)@.next_task_id);
                        assert(has_username(self@.users, username@));
                    }
                    return Ok(());
                } else {
                    proof {
                        // Usernames are unique, so no other record can match
                        // the name, and this one fails on the password.
                        assert forall|j: int|
                            0 <= j < self@.users.len() implies !(self@.users[j].username
                            == username@ && self@.users[j].password == password@) by {
                            if j < i as int {
                            } else if j == i as int {
                                assert(self@.users[j].password != password@);
                            } else {
                                assert(self@.users[i as int].username != self@.users[j].username);
                            }
                        }
                        assert(!credentials_ok(self@.users, username@, password@));
                    }
                    return Err(Error::InvalidCredentials);
                }
            }
            i += 1;
        }
        proof {
            assert(!credentials_ok(self@.users, username@, password@));
        }
        Err(Error::InvalidCredentials)
    }

    /// Clears the session identity unconditionally. Logging out while already
    /// logged out changes nothing at all.
    pub fn logout(&mut self)
        requires
            old(self)@.wf(),
        ensures
            final(self)@.wf(),
            final(self)@.current_user is None,
            final(self)@.tasks == old(self)@.tasks,
            final(self)@.users == old(self)@.users,
            final(self)@.next_task_id == old(self)@.next_task_id,
            old(self)@.current_user is None ==> final(self)@ == old(self)@,
    {
        self.current_user = None;
        proof {
            assert(self@.tasks == old(self)@.tasks);
            assert(self@.users == old(self)@.users);
            assert(self@.next_task_id == old(self)@.next_task_id);
            assert(self@.current_user is None);
        }
    }

    /// Whether a session is active.
    pub fn is_logged_in(&self) -> (r: bool)
        ensures
            r == (self@.current_user is Some),
    {
        self.current_user.is_some()
    }

    /// Finds the position of the task with id `task_id`, if any. Ids are
    /// unique in a well-formed store, so the position is the one `task_at`
    /// denotes.
    fn find_task(&self, task_id: u32) -> (r: Option<usize>)
        requires
            self@.wf(),
        ensures
            r matches Some(i) ==> {
                &&& i < self@.tasks.len()
                &&& self@.tasks[i as int].id == task_id
                &&& has_task(self@.tasks, task_id)
                &&& task_at(self@.tasks, task_id) == i as int
            },
            r is None ==> !has_task(self@.tasks, task_id),
    {
        let n = self.tasks.len();
        let mut i: usize = 0;
        while i < n
            invariant
                n == self.tasks.len(),
                i <= n,
                self@.wf(),
                forall|j: int| 0 <= j < i ==> self@.tasks[j].id != task_id,
            decreases n - i,
        {
            if self.tasks[i].id == task_id {
                proof {
                    assert(self@.tasks[i as int].id == task_id);
                    assert(has_task(self@.tasks, task_id));
                    let k = task_at(self@.tasks, task_id);
                    if k != i as int {
                        if k < i as int {
                            assert(self@.tasks[k].id < self@.tasks[i as int].id);
                        } else {
                            assert(self@.tasks[i as int].id < self@.tasks[k].id);
                        }
                    }
                }
                return Some(i);
            }
            i += 1;
        }
        None
    }

    /// Creates a task for the logged-in user: fails with `NotLoggedIn` when
    /// no session is active; otherwise the task is appended with the next
    /// free id, an empty completion flag, the session identity as owner and
    /// the current time as creation stamp, and that id is returned. The
    /// counter moves up by one, so ids are never reused.
    pub fn add_task(&mut self, title: &String, description: &String) -> (r: Result<u32, Error>)
        requires
            old(self)@.wf(),
            old(self)@.next_task_id < u32::MAX,
        ensures
            final(self)@.wf(),
            old(self)@.current_user is None ==> {
                &&& r == Err::<u32, Error>(Error::NotLoggedIn)
                &&& final(self)@ == old(self)@
            },
            old(self)@.current_user matches Some(owner) ==> {
                &&& r == Ok::<u32, Error>(old(self)@.next_task_id)
                &&& final(self)@.next_task_id == old(self)@.next_task_id + 1
                &&& final(self)@.users == old(self)@.users
                &&& final(self)@.current_user == old(self)@.current_user
                &&& final(self)@.tasks.len() == old(self)@.tasks.len() + 1
                &&& final(self)@.tasks.drop_last() == old(self)@.tasks
                &&& final(self)@.tasks.last().id == old(self)@.next_task_id
                &&& final(self)@.tasks.last().title == title@
                &&& final(self)@.tasks.last().description == description@
                &&& final(self)@.tasks.last().completed == false
                &&& final(self)@.tasks.last().user_id == owner
            },
    {
        let owner = match &self.current_user {
            Some(u) => u.clone(),
            None => {
                return Err(Error::NotLoggedIn);
            },
        };
        let id = self.next_task_id;
        let task = Task {
            id,
            title: title.clone(),
            description: description.clone(),
            completed: false,
            created_at: now_timestamp(),
            user_id: owner,
        };
        let ghost pre = self@;
        let ghost tv = task@;
        self.tasks.push(task);
        self.next_task_id = id + 1;
        proof {
            assert(self@.tasks =~= pre.tasks.push(tv));
            assert(self@.users == pre.users);
            assert(self@.current_user == pre.current_user);
            assert(self@.tasks.drop_last() =~= pre.tasks);
            assert forall|a: int, b: int|
                0 <= a < b < self@.tasks.len() implies self@.tasks[a].id
                < self@.tasks[b].id by {
                if b < pre.tasks.len() as int {
                    assert(pre.tasks[a].id < pre.tasks[b].id);
                } else {
                    assert(self@.tasks[b].id == pre.next_task_id);
                    assert(pre.tasks[a].id < pre.next_task_id);
                }
            }
        }
        Ok(id)
    }

    /// Marks a task as completed. The checks run in a fixed order - session
    /// first, then existence, then ownership - so the error kind is
    /// deterministic; on success only the task's `completed` flag changes.
    pub fn complete_task(&mut self, task_id: u32) -> (r: Result<(), Error>)
        requires
            old(self)@.wf(),
        ensures
            final(self)@.wf(),
            old(self)@.current_user is None ==> {
                &&& r == Err::<(), Error>(Error::NotLoggedIn)
                &&& final(self)@ == old(self)@
            },
            old(self)@.current_user is Some && !has_task(old(self)@.tasks, task_id) ==> {
                &&& r == Err::<(), Error>(Error::TaskNotFound)
                &&& final(self)@ == old(self)@
            },
            (old(self)@.current_user matches Some(name) && has_task(old(self)@.tasks, task_id)
                && old(self)@.tasks[task_at(old(self)@.tasks, task_id)].user_id != name) ==> {
                &&& r == Err::<(), Error>(Error::NotAuthorized)
                &&& final(self)@ == old(self)@
            },
            (old(self)@.current_user matches Some(name) && has_task(old(self)@.tasks, task_id)
                && old(self)@.tasks[task_at(old(self)@.tasks, task_id)].user_id == name) ==> {
                &&& r == Ok::<(), Error>(())
                &&& final(self)@.tasks == old(self)@.tasks.update(
                    task_at(old(self)@.tasks, task_id),
                    TaskV {
                        completed: true,
                        ..old(self)@.tasks[task_at(old(self)@.tasks, task_id)]
                    },
                )
                &&& final(self)@.users == old(self)@.users
                &&& final(self)@.current_user == old(self)@.current_user
                &&& final(self)@.next_task_id == old(self)@.next_task_id
            },
    {
        let owner = match &self.current_user {
            Some(u) => u.clone(),
            None => {
                return Err(Error::NotLoggedIn);
            },
        };
        let idx = match self.find_task(task_id) {
            Some(i) => i,
            None => {
                return Err(Error::TaskNotFound);
            },
        };
        if !(self.tasks[idx].user_id == owner) {
            return Err(Error::NotAuthorized);
        }
        let mut task = self.tasks[idx].clone();
        task.completed = true;
        let ghost pre = self@;
        let ghost tv = task@;
        self.tasks.set(idx, task);
        proof {
            assert(self@.tasks =~= pre.tasks.update(idx as int, tv));
            assert(tv == TaskV { completed: true, ..pre.tasks[idx as int] });
            self.lemma_wf_after_id_preserving_update(pre, idx as int);
        }
        Ok(())
    }

    /// Rewrites a task's title and description. Same check order and failure
    /// modes as `complete_task`; completion flag, creation stamp, id and
    /// owner are untouched.
    pub fn edit_task(&mut self, task_id: u32, title: &String, description: &String) -> (r:
        Result<(), Error>)
        requires
            old(self)@.wf(),
        ensures
            final(self)@.wf(),
            old(self)@.current_user is None ==> {
                &&& r == Err::<(), Error>(Error::NotLoggedIn)
                &&& final(self)@ == old(self)@
            },
            old(self)@.current_user is Some && !has_task(old(self)@.tasks, task_id) ==> {
                &&& r == Err::<(), Error>(Error::TaskNotFound)
                &&& final(self)@ == old(self)@
            },
            (old(self)@.current_user matches Some(name) && has_task(old(self)@.tasks, task_id)
                && old(self)@.tasks[task_at(old(self)@.tasks, task_id)].user_id != name) ==> {
                &&& r == Err::<(), Error>(Error::NotAuthorized)
                &&& final(self)@ == old(self)@
            },
            (old(self)@.current_user matches Some(name) && has_task(old(self)@.tasks, task_id)
                && old(self)@.tasks[task_at(old(self)@.tasks, task_id)].user_id == name) ==> {
                &&& r == Ok::<(), Error>(())
                &&& final(self)@.tasks == old(self)@.tasks.update(
                    task_at(old(self)@.tasks, task_id),
                    TaskV {
                        title: title@,
                        description: description@,
                        ..old(self)@.tasks[task_at(old(self)@.tasks, task_id)]
                    },
                )
                &&& final(self)@.users == old(self)@.users
                &&& final(self)@.current_user == old(self)@.current_user
                &&& final(self)@.next_task_id == old(self)@.next_task_id
            },
    {
        let owner = match &self.current_user {
            Some(u) => u.clone(),
            None => {
                return Err(Error::NotLoggedIn);
            },
        };
        let idx = match self.find_task(task_id) {
            Some(i) => i,
            None => {
                return Err(Error::TaskNotFound);
            },
        };
        if !(self.tasks[idx].user_id == owner) {
            return Err(Error::NotAuthorized);
        }
        let mut task = self.tasks[idx].clone();
        task.title = title.clone();
        task.description = description.clone();
        let ghost pre = self@;
        let ghost tv = task@;
        self.tasks.set(idx, task);
        proof {
            assert(self@.tasks =~= pre.tasks.update(idx as int, tv));
            assert(tv == TaskV {
                title: title@,
                description: description@,
                ..pre.tasks[idx as int]
            });
            self.lemma_wf_after_id_preserving_update(pre, idx as int);
        }
        Ok(())
    }

    /// Removes a task. Same check order and failure modes as
    /// `complete_task`; on success exactly that task disappears and the id
    /// counter stands, so the id is never handed out again.
    pub fn delete_task(&mut self, task_id: u32) -> (r: Result<(), Error>)
        requires
            old(self)@.wf(),
        ensures
            final(self)@.wf(),
            old(self)@.current_user is None ==> {
                &&& r == Err::<(), Error>(Error::NotLoggedIn)
                &&& final(self)@ == old(self)@
            },
            old(self)@.current_user is Some && !has_task(old(self)@.tasks, task_id) ==> {
                &&& r == Err::<(), Error>(Error::TaskNotFound)
                &&& final(self)@ == old(self)@
            },
            (old(self)@.current_user matches Some(name) && has_task(old(self)@.tasks, task_id)
                && old(self)@.tasks[task_at(old(self)@.tasks, task_id)].user_id != name) ==> {
                &&& r == Err::<(), Error>(Error::NotAuthorized)
                &&& final(self)@ == old(self)@
            },
            (old(self)@.current_user matches Some(name) && has_task(old(self)@.tasks, task_id)
                && old(self)@.tasks[task_at(old(self)@.tasks, task_id)].user_id == name) ==> {
                &&& r == Ok::<(), Error>(())
                &&& final(self)@.tasks == old(self)@.tasks.remove(
                    task_at(old(self)@.tasks, task_id),
                )
                &&& final(self)@.users == old(self)@.users
                &&& final(self)@.current_user == old(self)@.current_user
                &&& final(self)@.next_task_id == old(self)@.next_task_id
            },
    {
        let owner = match &self.current_user {
            Some(u) => u.clone(),
            None => {
                return Err(Error::NotLoggedIn);
            },
        };
        let idx = match self.find_task(task_id) {
            Some(i) => i,
            None => {
                return Err(Error::TaskNotFound);
            },
        };
        if !(self.tasks[idx].user_id == owner) {
            return Err(Error::NotAuthorized);
        }
        let ghost pre = self@;
        self.tasks.remove(idx);
        proof {
            assert(self@.tasks =~= pre.tasks.remove(idx as int));
            assert forall|a: int, b: int|
                0 <= a < b < self@.tasks.len() implies self@.tasks[a].id
                < self@.tasks[b].id by {
                let a0: int = if a < idx as int { a } else { a + 1 };
                let b0: int = if b < idx as int { b } else { b + 1 };
                assert(self@.tasks[a] == pre.tasks[a0]);
                assert(self@.tasks[b] == pre.tasks[b0]);
                assert(pre.tasks[a0].id < pre.tasks[b0].id);
            }
            assert forall|a: int| 0 <= a < self@.tasks.len() implies 1 <= (
            #[trigger] self@.tasks[a]).id < self@.next_task_id by {
                let a0: int = if a < idx as int { a } else { a + 1 };
                assert(self@.tasks[a] == pre.tasks[a0]);
            }
        }
        Ok(())
    }

    /// Lists the logged-in user's tasks, in store order (ascending id), as
    /// copies of the stored records. Fails with `NotLoggedIn` when no
    /// session is active; a user with no tasks gets an empty list.
    pub fn list_tasks(&self) -> (r: Result<Vec<Task>, Error>)
        requires
            self@.wf(),
        ensures
            self@.current_user is None ==> r == Err::<Vec<Task>, Error>(Error::NotLoggedIn),
            self@.current_user matches Some(name) ==> {
                &&& r matches Ok(v) && task_views(v@) == tasks_of(self@, name)
            },
    {
        let name = match &self.current_user {
            Some(u) => u.clone(),
            None => {
                return Err(Error::NotLoggedIn);
            },
        };
        let ghost nm = name@;
        let mut out: Vec<Task> = Vec::new();
        let n = self.tasks.len();
        let mut i: usize = 0;
        while i < n
            invariant
                n == self.tasks.len(),
                i <= n,
                name@ == nm,
                task_views(out@) == owned_by(self@.tasks.take(i as int), nm),
            decreases n - i,
        {
            let ghost prefix = self@.tasks.take(i as int);
            if self.tasks[i].user_id == name {
                out.push(self.tasks[i].clone());
            }
            i += 1;
            proof {
                assert(self@.tasks.take(i as int).drop_last() =~= prefix);
                assert(self@.tasks.take(i as int).last() == self@.tasks[i - 1]);
                assert(task_views(out@) =~= owned_by(self@.tasks.take(i as int), nm));
            }
        }
        proof {
            assert(self@.tasks.take(n as int) =~= self@.tasks);
        }
        Ok(out)
    }

    /// Rebuilds a store from loaded collections: no session, and the id
    /// counter set to one more than the greatest persisted id (or 1 when no
    /// task exists), so ids stay unique across restarts. Collections that do
    /// not satisfy the persisted layout's invariants - ids at least 1 and
    /// strictly increasing, usernames unique - are rejected as
    /// `CorruptState`, and so is an id collection that leaves no id free.
    pub fn from_collections(tasks: Vec<Task>, users: Vec<User>) -> (r: Result<TodoApp, Error>)
        ensures
            r matches Ok(app) ==> {
                &&& valid_tasks(task_views(tasks@)) && valid_users(user_views(users@))
                &&& app@.wf()
                &&& app@.tasks == task_views(tasks@)
                &&& app@.users == user_views(users@)
                &&& app@.current_user is None
                &&& app@.next_task_id == if tasks@.len() == 0 {
                    1int
                } else {
                    task_views(tasks@).last().id + 1
                }
            },
            r matches Err(e) ==> {
                &&& !(valid_tasks(task_views(tasks@)) && valid_users(user_views(users@)))
                &&& e == Error::CorruptState
            },
    {
        let tn = tasks.len();
        let mut i: usize = 0;
        while i < tn
            invariant
                tn == tasks.len(),
                i <= tn,
                forall|j: int| 0 <= j < i ==> 1 <= (#[trigger] task_views(tasks@)[j]).id,
                forall|j: int, k: int|
                    0 <= j < k < i ==> task_views(tasks@)[j].id < task_views(tasks@)[k].id,
            decreases tn - i,
        {
            if tasks[i].id < 1 {
                proof {
                    assert(task_views(tasks@)[i as int].id < 1);
                }
                return Err(Error::CorruptState);
            }
            if i > 0 && !(tasks[i - 1].id < tasks[i].id) {
                proof {
                    assert(task_views(tasks@)[i - 1].id >= task_views(tasks@)[i as int].id);
                }
                return Err(Error::CorruptState);
            }
            proof {
                assert forall|j: int| 0 <= j < i implies task_views(tasks@)[j].id
                    < task_views(tasks@)[i as int].id by {
                    if j < i - 1 {
                        assert(task_views(tasks@)[j].id < task_views(tasks@)[i - 1].id);
                    }
                }
            }
            i += 1;
        }
        if tn > 0 && tasks[tn - 1].id == u32::MAX {
            return Err(Error::CorruptState);
        }
        let un = users.len();
        let mut a: usize = 0;
        while a < un
            invariant
                un == users.len(),
                a <= un,
                forall|j: int, k: int|
                    0 <= j < k < un && j < a ==> user_views(users@)[j].username != user_views(
                        users@,
                    )[k].username,
            decreases un - a,
        {
            let mut b: usize = a + 1;
            while b < un
                invariant
                    un == users.len(),
                    a < un,
                    a < b,
                    b <= un,
                    forall|k: int|
                        a < k < b ==> user_views(users@)[a as int].username != user_views(
                            users@,
                        )[k].username,
                decreases un - b,
            {
                if users[a].username == users[b].username {
                    proof {
                        assert(user_views(users@)[a as int].username == user_views(
                            users@,
                        )[b as int].username);
                    }
                    return Err(Error::CorruptState);
                }
                b += 1;
            }
            a += 1;
        }
        let next = if tn == 0 {
            1
        } else {
            tasks[tn - 1].id + 1
        };
        let app = TodoApp { tasks, users, current_user: None, next_task_id: next };
        proof {
            assert(valid_tasks(app@.tasks));
            assert(valid_users(app@.users));
            if app@.tasks.len() > 0 {
                assert forall|j: int| 0 <= j < app@.tasks.len() implies 1 <= (
                #[trigger] app@.tasks[j]).id < app@.next_task_id by {
                    if j < app@.tasks.len() - 1 {
                        assert(app@.tasks[j].id < app@.tasks[app@.tasks.len() - 1].id);
                    }
                }
            }
        }
        Ok(app)
    }

    /// In a well-formed store every task id is below the allocation counter
    /// and ids are pairwise distinct: together with the contracts of the
    /// operations - `add_task` returns the counter and moves it up, no
    /// operation ever moves it down - the ids returned by successive
    /// successful `add_task` calls are strictly increasing and never reused.
    pub proof fn lemma_task_ids_fresh(s: StoreV)
        requires
            s.wf(),
        ensures
            forall|i: int| 0 <= i < s.tasks.len() ==> (#[trigger] s.tasks[i]).id < s.next_task_id,
            forall|i: int, j: int|
                0 <= i < j < s.tasks.len() ==> s.tasks[i].id != s.tasks[j].id,
    {
    }

    /// Ids-preserving update: helper for `complete_task` and `edit_task`.
    proof fn lemma_wf_after_id_preserving_update(self, pre: StoreV, idx: int)
        requires
            pre.wf(),
            0 <= idx < pre.tasks.len(),
            self@.tasks.len() == pre.tasks.len(),
            forall|i: int|
                0 <= i < pre.tasks.len() ==> (#[trigger] self@.tasks[i]).id == pre.tasks[i].id,
            self@.users == pre.users,
            self@.current_user == pre.current_user,
            self@.next_task_id == pre.next_task_id,
        ensures
            self@.wf(),
    {
    }
}

/// Every task in a user's listing belongs to that user.
pub proof fn lemma_owned_by_members(ts: Seq<TaskV>, name: Seq<char>)
    ensures
        forall|k: int|
            0 <= k < owned_by(ts, name).len() ==> (#[trigger] owned_by(ts, name)[k]).user_id
                == name,
    decreases ts.len(),
{
    if ts.len() > 0 {
        lemma_owned_by_members(ts.drop_last(), name);
        let rest = owned_by(ts.drop_last(), name);
        assert forall|k: int| 0 <= k < owned_by(ts, name).len() implies (#[trigger] owned_by(
            ts,
            name,
        )[k]).user_id == name by {
            if k < rest.len() {
                assert(owned_by(ts, name)[k] == rest[k]);
            } else {
                assert(owned_by(ts, name)[k] == ts.last());
            }
        }
    }
}

/// Ownership isolation: a task that does not belong to the account named
/// `other` never appears in that account's listing - `list_tasks` under any
/// other session cannot show it.
pub proof fn lemma_ownership_isolation(s: StoreV, other: Seq<char>, i: int)
    requires
        s.wf(),
        0 <= i < s.tasks.len(),
        s.tasks[i].user_id != other,
    ensures
        !tasks_of(s, other).contains(s.tasks[i]),
{
    lemma_owned_by_members(s.tasks, other);
    if tasks_of(s, other).contains(s.tasks[i]) {
        let k = choose|k: int|
            0 <= k < tasks_of(s, other).len() && tasks_of(s, other)[k] == s.tasks[i];
        assert(tasks_of(s, other)[k].user_id == other);
    }
}

/// The last task of a well-formed store carries the greatest id, so the
/// counter `from_collections` rebuilds - last id plus one - exceeds every
/// persisted id: after a reload the next `add_task` returns exactly that
/// counter value.
pub proof fn lemma_last_id_is_max(s: StoreV)
    requires
        s.wf(),
        s.tasks.len() > 0,
    ensures
        forall|i: int|
            0 <= i < s.tasks.len() ==> (#[trigger] s.tasks[i]).id <= s.tasks.last().id,
{
    assert forall|i: int| 0 <= i < s.tasks.len() implies (#[trigger] s.tasks[i]).id
        <= s.tasks.last().id by {
        if i < s.tasks.len() - 1 {
            assert(s.tasks[i].id < s.tasks[s.tasks.len() - 1].id);
        }
    }
}

} // verus!
