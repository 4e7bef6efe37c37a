//! Player profiles: a validated display name and running totals of
//! experience, games and wins. The profile store belongs to the host; each
//! request here takes the caller's stored profile, if any, and returns the
//! reply together with the profile to store.
use vstd::prelude::*;

verus! {

/// Marker type naming the profile application.
pub struct PlayerProfileAbi;

/// A player's profile. `created_at` is in milliseconds.
#[derive(Clone, Debug)]
pub struct PlayerProfile {
    pub name: String,
    pub created_at: u64,
    pub xp: u64,
    pub games_played: u64,
    pub wins: u64,
}

/// Why a profile request was refused.
#[derive(Clone, Debug)]
pub enum ProfileError {
    ProfileExists,
    ProfileNotFound,
    InvalidName(String),
    Unauthorized,
    StateError(String),
}

/// A request to the profile application.
pub enum Operation {
    Register { name: String },
    UpdateStats { xp_delta: u64, games_delta: u64, wins_delta: u64 },
    UpdateName { name: String },
}

/// The reply to a profile request.
#[derive(Clone, Debug)]
pub enum OperationResult {
    ProfileCreated,
    ProfileUpdated,
    StatsUpdated { new_xp: u64, new_games: u64, new_wins: u64 },
    Error(String),
}

/// The text without leading and trailing white space, as `str::trim` gives it.
pub uninterp spec fn trim_of(s: Seq<char>) -> Seq<char>;

/// Whether `char::is_alphanumeric` holds of `c`.
pub uninterp spec fn alphanumeric_of(c: char) -> bool;

/// Relies on `str::trim`: the text without leading and trailing white
/// space, which depends on the text alone.
#[verifier::external_body]
fn trim_text(s: &str) -> (r: &str)
    ensures
        r@ == trim_of(s@),
{
    s.trim()
}

/// Relies on `char::is_alphanumeric`: Unicode letters and numbers, which
/// among ASCII characters are exactly the letters and digits.
#[verifier::external_body]
fn is_alphanumeric(c: char) -> (r: bool)
    ensures
        r == alphanumeric_of(c),
        ('a' <= c <= 'z' || 'A' <= c <= 'Z' || '0' <= c <= '9') ==> r,
        (c as u32) < 128 && !('a' <= c <= 'z' || 'A' <= c <= 'Z' || '0' <= c <= '9') ==> !r,
{
    c.is_alphanumeric()
}

/// Characters that a name may hold.
pub open spec fn name_char_ok(c: char) -> bool {
    alphanumeric_of(c) || c == '_' || c == ' ' || c == '-'
}

pub open spec fn too_short_text() -> Seq<char> {
    "Name must be at least 3 characters"@
}

pub open spec fn too_long_text() -> Seq<char> {
    "Name must be at most 20 characters"@
}

pub open spec fn bad_char_text() -> Seq<char> {
    "Name can only contain letters, numbers, spaces, hyphens, and underscores"@
}

/// What is wrong with an already trimmed name, if anything: fewer than 3
/// or more than 20 bytes, or a character other than a letter, a number, a
/// space, a hyphen or an underscore.
pub open spec fn trimmed_name_problem(t: Seq<char>) -> Option<Seq<char>> {
    let bytes = vstd::utf8::encode_utf8(t).len();
    if bytes < 3 {
        Some(too_short_text())
    } else if bytes > 20 {
        Some(too_long_text())
    } else if !(forall|i: int| 0 <= i < t.len() ==> name_char_ok(#[trigger] t[i])) {
        Some(bad_char_text())
    } else {
        None
    }
}

/// Whether `r` answers a name check whose problem is `problem`.
pub open spec fn name_verdict(r: Result<(), ProfileError>, problem: Option<Seq<char>>) -> bool {
    match problem {
        None => r is Ok,
        Some(m) => r matches Err(ProfileError::InvalidName(msg)) && msg@ == m,
    }
}

/// Checks a name that is already trimmed.
pub fn validate_trimmed(t: &str) -> (r: Result<(), ProfileError>)
    ensures
        name_verdict(r, trimmed_name_problem(t@)),
{
    proof {
        reveal_strlit("Name must be at least 3 characters");
        reveal_strlit("Name must be at most 20 characters");
        reveal_strlit("Name can only contain letters, numbers, spaces, hyphens, and underscores");
    }
    let bytes = t.as_bytes().len();
    if bytes < 3 {
        return Err(ProfileError::InvalidName(String::from_str("Name must be at least 3 characters")));
    }
    if bytes > 20 {
        return Err(ProfileError::InvalidName(String::from_str("Name must be at most 20 characters")));
    }
    let n = t.unicode_len();
    let mut i: usize = 0;
    while i < n
        invariant
            n == t@.len(),
            i <= n,
            3 <= vstd::utf8::encode_utf8(t@).len() <= 20,
            forall|j: int| 0 <= j < i ==> name_char_ok(#[trigger] t@[j]),
        decreases n - i,
    {
        let c = t.get_char(i);
        if !(is_alphanumeric(c) || c == '_' || c == ' ' || c == '-') {
            assert(!name_char_ok(t@[i as int]));
            return Err(
                ProfileError::InvalidName(
                    String::from_str(
                        "Name can only contain letters, numbers, spaces, hyphens, and underscores",
                    ),
                ),
            );
        }
        i = i + 1;
    }
    Ok(())
}

/// Checks a name once trimmed: 3 to 20 bytes of letters, numbers, spaces,
/// hyphens and underscores.
pub fn validate_name(name: &str) -> (r: Result<(), ProfileError>)
    ensures
        name_verdict(r, trimmed_name_problem(trim_of(name@))),
{
    validate_trimmed(trim_text(name))
}

/// A new profile for `name`, refused where the caller already has one.
pub fn register_profile(exists: bool, name: &str, now_ms: u64) -> (r: Result<
    PlayerProfile,
    ProfileError,
>)
    ensures
        trimmed_name_problem(trim_of(name@)) is Some ==> name_verdict(
            match r {
                Ok(_) => Ok(()),
                Err(e) => Err(e),
            },
            trimmed_name_problem(trim_of(name@)),
        ),
        trimmed_name_problem(trim_of(name@)) is None && exists ==> r matches Err(
            ProfileError::ProfileExists,
        ),
        trimmed_name_problem(trim_of(name@)) is None && !exists ==> r is Ok && r->Ok_0.name@
            == trim_of(name@) && r->Ok_0.created_at == now_ms && r->Ok_0.xp == 0
            && r->Ok_0.games_played == 0 && r->Ok_0.wins == 0,
{
    match validate_name(name) {
        Err(e) => Err(e),
        Ok(()) => {
            if exists {
                Err(ProfileError::ProfileExists)
            } else {
                let trimmed = trim_text(name);
                Ok(
                    PlayerProfile {
                        name: String::from_str(trimmed),
                        created_at: now_ms,
                        xp: 0,
                        games_played: 0,
                        wins: 0,
                    },
                )
            }
        },
    }
}

/// `a + b`, capped at `u64::MAX`.
pub open spec fn capped_sum(a: u64, b: u64) -> u64 {
    if a + b > u64::MAX {
        u64::MAX
    } else {
        (a + b) as u64
    }
}

/// The profile with each total raised by its delta, capped at `u64::MAX`.
pub fn update_stats(existing: Option<PlayerProfile>, xp_delta: u64, games_delta: u64, wins_delta: u64) -> (r:
    Result<PlayerProfile, ProfileError>)
    ensures
        existing is None ==> r matches Err(ProfileError::ProfileNotFound),
        existing is Some ==> r is Ok && ({
            let p = existing->Some_0;
            let q = r->Ok_0;
            &&& q.name@ == p.name@
            &&& q.created_at == p.created_at
            &&& q.xp == capped_sum(p.xp, xp_delta)
            &&& q.games_played == capped_sum(p.games_played, games_delta)
            &&& q.wins == capped_sum(p.wins, wins_delta)
        }),
{
    match existing {
        None => Err(ProfileError::ProfileNotFound),
        Some(p) => Ok(
            PlayerProfile {
                name: p.name,
                created_at: p.created_at,
                xp: p.xp.saturating_add(xp_delta),
                games_played: p.games_played.saturating_add(games_delta),
                wins: p.wins.saturating_add(wins_delta),
            },
        ),
    }
}

/// The profile renamed to the trimmed `name`; the name is checked first.
pub fn update_name(existing: Option<PlayerProfile>, name: &str) -> (r: Result<
    PlayerProfile,
    ProfileError,
>)
    ensures
        trimmed_name_problem(trim_of(name@)) is Some ==> name_verdict(
            match r {
                Ok(_) => Ok(()),
                Err(e) => Err(e),
            },
            trimmed_name_problem(trim_of(name@)),
        ),
        trimmed_name_problem(trim_of(name@)) is None && existing is None ==> r matches Err(
            ProfileError::ProfileNotFound,
        ),
        trimmed_name_problem(trim_of(name@)) is None && existing is Some ==> r is Ok && ({
            let p = existing->Some_0;
            let q = r->Ok_0;
            &&& q.name@ == trim_of(name@)
            &&& q.created_at == p.created_at
            &&& q.xp == p.xp
            &&& q.games_played == p.games_played
            &&& q.wins == p.wins
        }),
{
    match validate_name(name) {
        Err(e) => Err(e),
        Ok(()) => match existing {
            None => Err(ProfileError::ProfileNotFound),
            Some(p) => Ok(
                PlayerProfile {
                    name: String::from_str(trim_text(name)),
                    created_at: p.created_at,
                    xp: p.xp,
                    games_played: p.games_played,
                    wins: p.wins,
                },
            ),
        },
    }
}

/// The text that describes an error.
pub open spec fn error_text(e: ProfileError) -> Seq<char> {
    match e {
        ProfileError::ProfileExists => "Profile already exists for this owner"@,
        ProfileError::ProfileNotFound => "Profile not found"@,
        ProfileError::InvalidName(m) => "Invalid name: "@ + m@,
        ProfileError::Unauthorized => "Unauthorized: only the owner can modify this profile"@,
        ProfileError::StateError(m) => "State error: "@ + m@,
    }
}

impl ProfileError {
    /// The text that describes this error.
    pub fn message(&self) -> (r: String)
        ensures
            r@ == error_text(*self),
    {
        match self {
            ProfileError::ProfileExists => String::from_str("Profile already exists for this owner"),
            ProfileError::ProfileNotFound => String::from_str("Profile not found"),
            ProfileError::InvalidName(m) => String::from_str("Invalid name: ").concat(m.as_str()),
            ProfileError::Unauthorized => String::from_str(
                "Unauthorized: only the owner can modify this profile",
            ),
            ProfileError::StateError(m) => String::from_str("State error: ").concat(m.as_str()),
        }
    }
}

/// Whether `reply` reports an error with the text `text` and nothing is stored.
pub open spec fn refused(reply: OperationResult, store: Option<PlayerProfile>, text: Seq<char>) -> bool {
    reply is Error && reply->Error_0@ == text && store is None
}

/// Runs `operation` for a caller whose stored profile is `existing`, at
/// `now_ms`. Returns the reply and the profile to store, if any.
pub fn execute_operation(existing: Option<PlayerProfile>, operation: Operation, now_ms: u64) -> (r: (
    OperationResult,
    Option<PlayerProfile>,
))
    ensures
        match operation {
            Operation::Register { name } => {
                let problem = trimmed_name_problem(trim_of(name@));
                &&& problem matches Some(m) ==> refused(r.0, r.1, "Invalid name: "@ + m)
                &&& problem is None && existing is Some ==> refused(
                    r.0,
                    r.1,
                    "Profile already exists for this owner"@,
                )
                &&& problem is None && existing is None ==> r.0 is ProfileCreated && r.1 is Some
                    && r.1->Some_0.name@ == trim_of(name@) && r.1->Some_0.created_at == now_ms
                    && r.1->Some_0.xp == 0 && r.1->Some_0.games_played == 0 && r.1->Some_0.wins
                    == 0
            },
            Operation::UpdateStats { xp_delta, games_delta, wins_delta } => {
                &&& existing is None ==> refused(r.0, r.1, "Profile not found"@)
                &&& existing is Some ==> {
                    let p = existing->Some_0;
                    &&& r.1 is Some
                    &&& r.1->Some_0.name@ == p.name@
                    &&& r.1->Some_0.created_at == p.created_at
                    &&& r.1->Some_0.xp == capped_sum(p.xp, xp_delta)
                    &&& r.1->Some_0.games_played == capped_sum(p.games_played, games_delta)
                    &&& r.1->Some_0.wins == capped_sum(p.wins, wins_delta)
                    &&& r.0 == OperationResult::StatsUpdated {
                        new_xp: r.1->Some_0.xp,
                        new_games: r.1->Some_0.games_played,
                        new_wins: r.1->Some_0.wins,
                    }
                }
            },
            Operation::UpdateName { name } => {
                let problem = trimmed_name_problem(trim_of(name@));
                &&& problem matches Some(m) ==> refused(r.0, r.1, "Invalid name: "@ + m)
                &&& problem is None && existing is None ==> refused(r.0, r.1, "Profile not found"@)
                &&& problem is None && existing is Some ==> {
                    let p = existing->Some_0;
                    &&& r.0 is ProfileUpdated
                    &&& r.1 is Some
                    &&& r.1->Some_0.name@ == trim_of(name@)
                    &&& r.1->Some_0.created_at == p.created_at
                    &&& r.1->Some_0.xp == p.xp
                    &&& r.1->Some_0.games_played == p.games_played
                    &&& r.1->Some_0.wins == p.wins
                }
            },
        },
{
    match operation {
        Operation::Register { name } => match register_profile(existing.is_some(), name.as_str(), now_ms) {
            Ok(p) => (OperationResult::ProfileCreated, Some(p)),
            Err(e) => (OperationResult::Error(e.message()), None),
        },
        Operation::UpdateStats { xp_delta, games_delta, wins_delta } => match update_stats(
            existing,
            xp_delta,
            games_delta,
            wins_delta,
        ) {
            Ok(p) => (
                OperationResult::StatsUpdated {
                    new_xp: p.xp,
                    new_games: p.games_played,
                    new_wins: p.wins,
                },
                Some(p),
            ),
            Err(e) => (OperationResult::Error(e.message()), None),
        },
        Operation::UpdateName { name } => match update_name(existing, name.as_str()) {
            Ok(p) => (OperationResult::ProfileUpdated, Some(p)),
            Err(e) => (OperationResult::Error(e.message()), None),
        },
    }
}

} // verus!
