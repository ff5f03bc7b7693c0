//! Jobs that run at set times. Cron expressions are in Beijing time.
use vstd::prelude::*;
use crate::agent::{is_silent, silent};
use crate::agent::turn::{event_views, AgentEvent, EventView};
use crate::bot::{send_body, send_message};
use crate::config::CronJob;
use crate::json::Json;
use crate::text::{first_chars, same, take_chars};

pub mod commands;

verus! {

/// A stored job.
#[derive(Clone, Debug)]
pub struct JobRecord {
    pub id: i64,
    pub name: String,
    pub schedule: String,
    pub prompt: String,
    pub chat_id: i64,
    pub enabled: bool,
}

impl JobRecord {
    /// Whether both records hold the same.
    pub open spec fn like(self, other: JobRecord) -> bool {
        &&& self.id == other.id
        &&& self.name@ == other.name@
        &&& self.schedule@ == other.schedule@
        &&& self.prompt@ == other.prompt@
        &&& self.chat_id == other.chat_id
        &&& self.enabled == other.enabled
    }

    fn duplicate(&self) -> (r: JobRecord)
        ensures
            r.like(*self),
    {
        JobRecord {
            id: self.id,
            name: self.name.clone(),
            schedule: self.schedule.clone(),
            prompt: self.prompt.clone(),
            chat_id: self.chat_id,
            enabled: self.enabled,
        }
    }
}

// ---------- cron expressions ----------

/// The words of the error with which `croner` turns an expression down, if it does.
pub uninterp spec fn cron_error(schedule: Seq<char>) -> Option<Seq<char>>;

/// The first time after `now` that an expression names on a clock `east` seconds east of
/// Greenwich, as `croner` finds it, or the words of its error. Times are seconds since 1970.
pub uninterp spec fn cron_next(schedule: Seq<char>, now: i64, east: i32) -> Result<i64, Seq<char>>;

/// The start of the year 10000, in seconds since 1970. The clock is taken to be before it.
pub const CLOCK_END: i64 = 253402300800;

/// `croner::Cron::parse` on a new `Cron`: whether an expression is turned down, and with which
/// words, rests on the expression alone.
#[verifier::external_body]
fn croner_check(schedule: &str) -> (r: Option<String>)
    ensures
        match r {
            Some(e) => cron_error(schedule@) == Some(e@),
            None => cron_error(schedule@) is None,
        },
{
    match croner::Cron::new(schedule).parse() {
        Ok(_) => None,
        Err(e) => Some(e.to_string()),
    }
}

/// `croner::Cron::find_next_occurrence`, not inclusive, after `parse`: what it finds rests on the
/// expression, the time and the clock, and lies after the time. An expression that `parse` turns
/// down gives the words of that error.
#[verifier::external_body]
fn croner_next(schedule: &str, now: i64, east: i32) -> (r: Result<i64, String>)
    requires
        0 <= now < CLOCK_END,
        -86400 < east < 86400,
    ensures
        match r {
            Ok(t) => cron_next(schedule@, now, east) == Ok::<i64, Seq<char>>(t) && t > now
                && cron_error(schedule@) is None,
            Err(e) => cron_next(schedule@, now, east) == Err::<i64, Seq<char>>(e@) && (cron_error(
                schedule@,
            ) matches Some(why) ==> e@ == why),
        },
{
    let cron = match croner::Cron::new(schedule).parse() {
        Ok(c) => c,
        Err(e) => return Err(e.to_string()),
    };
    let zone = chrono::FixedOffset::east_opt(east).unwrap();
    let from = chrono::DateTime::from_timestamp(now, 0).unwrap().with_timezone(&zone);
    match cron.find_next_occurrence(&from, false) {
        Ok(next) => Ok(next.timestamp()),
        Err(e) => Err(e.to_string()),
    }
}

/// How far east of Greenwich the clock of Beijing is, in seconds.
pub fn beijing_tz() -> (r: i32)
    ensures
        r == 8 * 3600,
{
    8 * 3600
}

pub open spec fn bad_schedule(schedule: Seq<char>, e: Seq<char>) -> Seq<char> {
    "cron 表达式 '"@ + schedule + "' 非法: "@ + e
}

/// What is said of an expression that `croner` turned down with these words; nothing where it did
/// not.
pub fn schedule_complaint(schedule: &str, error: Option<String>) -> (r: Option<String>)
    ensures
        match (error, r) {
            (Some(e), Some(t)) => t@ == bad_schedule(schedule@, e@),
            (None, None) => true,
            _ => false,
        },
{
    match error {
        Some(e) => {
            let mut t = "cron 表达式 '".to_owned();
            t.append(schedule);
            t.append("' 非法: ");
            t.append(e.as_str());
            Some(t)
        },
        None => None,
    }
}

/// Why an expression cannot be used, where it cannot.
pub fn check_schedule(schedule: &str) -> (r: Option<String>)
    ensures
        match r {
            Some(t) => cron_error(schedule@) is Some && t@ == bad_schedule(
                schedule@,
                cron_error(schedule@)->0,
            ),
            None => cron_error(schedule@) is None,
        },
{
    schedule_complaint(schedule, croner_check(schedule))
}

// ---------- waiting ----------

/// How long to wait, in nanoseconds: until `next`, or not at all where that is over.
pub open spec fn wait_nanos(next: i64, now: i64, nanos: u32) -> int {
    let left = (next - now) * 1_000_000_000 - nanos;
    if left < 0 {
        0
    } else {
        left
    }
}

/// [`wait_nanos`] as whole seconds and the nanoseconds left over. The time is `now` seconds since
/// 1970 and `nanos` nanoseconds.
pub fn wait_until(next: i64, now: i64, nanos: u32) -> (r: (u64, u32))
    requires
        0 <= next,
        0 <= now,
        nanos < 1_000_000_000,
    ensures
        r.0 * 1_000_000_000 + r.1 == wait_nanos(next, now, nanos),
        r.1 < 1_000_000_000,
{
    if next < now || (next == now && nanos > 0) {
        return (0, 0);
    }
    let whole: u64 = (next - now) as u64;
    if nanos == 0 {
        (whole, 0)
    } else {
        (whole - 1, 1_000_000_000 - nanos)
    }
}

/// What a job does next.
pub enum Plan {
    /// Wait until this time, in seconds since 1970, and run.
    RunAt(i64),
    /// Give up, for this reason.
    GiveUp(String),
}

/// When a job runs next. A time that was missed is not made up for: only times after `now` count.
pub fn next_run(schedule: &str, now: i64) -> (r: Plan)
    requires
        0 <= now < CLOCK_END,
    ensures
        match r {
            Plan::RunAt(t) => cron_next(schedule@, now, 28800) == Ok::<i64, Seq<char>>(t) && t > now
                && cron_error(schedule@) is None,
            Plan::GiveUp(e) => cron_next(schedule@, now, 28800) == Err::<i64, Seq<char>>(e@),
        },
{
    match croner_next(schedule, now, beijing_tz()) {
        Ok(t) => Plan::RunAt(t),
        Err(e) => Plan::GiveUp(e),
    }
}

// ---------- which jobs run ----------

/// The jobs that are switched on, in their order.
pub open spec fn switched_on(jobs: Seq<JobRecord>) -> Seq<JobRecord> {
    jobs.filter(|j: JobRecord| j.enabled)
}

pub open spec fn all_like(a: Seq<JobRecord>, b: Seq<JobRecord>) -> bool {
    &&& a.len() == b.len()
    &&& forall|i: int| 0 <= i < a.len() ==> (#[trigger] a[i]).like(b[i])
}

/// Copies of the jobs that are switched on.
pub fn list_enabled(jobs: &Vec<JobRecord>) -> (r: Vec<JobRecord>)
    ensures
        all_like(r@, switched_on(jobs@)),
{
    broadcast use vstd::seq_lib::group_seq_properties;

    let mut r: Vec<JobRecord> = Vec::new();
    let ghost on = |j: JobRecord| j.enabled;
    let mut i: usize = 0;
    proof {
        reveal(Seq::filter);
        assert(jobs@.take(0) =~= Seq::empty());
    }
    while i < jobs.len()
        invariant
            i <= jobs@.len(),
            on == (|j: JobRecord| j.enabled),
            all_like(r@, jobs@.take(i as int).filter(on)),
        decreases jobs@.len() - i,
    {
        proof {
            reveal(Seq::filter);
            assert(jobs@.take(i + 1).drop_last() =~= jobs@.take(i as int));
            assert(jobs@.take(i + 1).last() == jobs@[i as int]);
        }
        if jobs[i].enabled {
            r.push(jobs[i].duplicate());
        }
        i += 1;
    }
    assert(jobs@.take(jobs@.len() as int) =~= jobs@);
    r
}

/// Whether a job of that name is stored.
pub open spec fn is_stored(stored: Seq<JobRecord>, name: Seq<char>) -> bool {
    exists|i: int| 0 <= i < stored.len() && #[trigger] stored[i].name@ == name
}

/// Whether a job of the configuration is to be stored at the start: none of its name is there.
pub fn seed_job(stored: &Vec<JobRecord>, job: &CronJob) -> (r: bool)
    ensures
        r == !is_stored(stored@, job.name@),
{
    let mut i: usize = 0;
    while i < stored.len()
        invariant
            i <= stored@.len(),
            forall|k: int| 0 <= k < i ==> (#[trigger] stored@[k]).name@ != job.name@,
        decreases stored@.len() - i,
    {
        if same(stored[i].name.as_str(), job.name.as_str()) {
            assert(stored@[i as int].name@ == job.name@);
            return false;
        }
        i += 1;
    }
    true
}

/// What a job is, apart from the id under which it is stored.
#[verifier::ext_equal]
pub struct JobView {
    pub name: Seq<char>,
    pub schedule: Seq<char>,
    pub prompt: Seq<char>,
    pub chat_id: i64,
    pub enabled: bool,
}

pub open spec fn stored_view(j: JobRecord) -> JobView {
    JobView {
        name: j.name@,
        schedule: j.schedule@,
        prompt: j.prompt@,
        chat_id: j.chat_id,
        enabled: j.enabled,
    }
}

pub open spec fn seed_view(j: CronJob) -> JobView {
    JobView {
        name: j.name@,
        schedule: j.schedule@,
        prompt: j.prompt@,
        chat_id: j.chat_id,
        enabled: j.enabled,
    }
}

pub open spec fn stored_views(jobs: Seq<JobRecord>) -> Seq<JobView> {
    jobs.map_values(|j: JobRecord| stored_view(j))
}

pub open spec fn seed_views(jobs: Seq<CronJob>) -> Seq<JobView> {
    jobs.map_values(|j: CronJob| seed_view(j))
}

/// Whether one of the jobs has that name.
pub open spec fn has_name(jobs: Seq<JobView>, name: Seq<char>) -> bool {
    exists|i: int| 0 <= i < jobs.len() && #[trigger] jobs[i].name == name
}

/// What is stored once the jobs of the configuration have been gone through in turn: each is
/// stored where none of its name is there.
pub open spec fn seeded(stored: Seq<JobView>, seeds: Seq<JobView>) -> Seq<JobView>
    decreases seeds.len(),
{
    if seeds.len() == 0 {
        stored
    } else {
        let before = seeded(stored, seeds.drop_last());
        if has_name(before, seeds.last().name) {
            before
        } else {
            before.push(seeds.last())
        }
    }
}

proof fn lemma_has_name_add(a: Seq<JobView>, b: Seq<JobView>, name: Seq<char>)
    ensures
        has_name(a + b, name) == (has_name(a, name) || has_name(b, name)),
{
    let all = a + b;
    if has_name(a, name) {
        let i = choose|i: int| 0 <= i < a.len() && #[trigger] a[i].name == name;
        assert(all[i].name == name);
    }
    if has_name(b, name) {
        let i = choose|i: int| 0 <= i < b.len() && #[trigger] b[i].name == name;
        assert(all[a.len() + i].name == name);
    }
    if has_name(all, name) {
        let i = choose|i: int| 0 <= i < all.len() && #[trigger] all[i].name == name;
        if i < a.len() {
            assert(a[i].name == name);
        } else {
            assert(b[i - a.len()].name == name);
        }
    }
}

/// The jobs of the configuration to be stored, in their order, where these are stored already.
pub fn seed_jobs(stored: &Vec<JobRecord>, seeds: &Vec<CronJob>) -> (r: Vec<CronJob>)
    ensures
        stored_views(stored@) + seed_views(r@) == seeded(stored_views(stored@), seed_views(seeds@)),
{
    let ghost old = stored_views(stored@);
    let ghost all = seed_views(seeds@);
    let mut r: Vec<CronJob> = Vec::new();
    let mut i: usize = 0;
    proof {
        assert(all.take(0) =~= Seq::empty());
        assert(old + seed_views(r@) =~= old);
    }
    while i < seeds.len()
        invariant
            i <= seeds@.len(),
            old == stored_views(stored@),
            all == seed_views(seeds@),
            old + seed_views(r@) == seeded(old, all.take(i as int)),
        decreases seeds@.len() - i,
    {
        let job = &seeds[i];
        proof {
            assert(all.take(i + 1).drop_last() =~= all.take(i as int));
            assert(all.take(i + 1).last() == seed_view(*job));
            lemma_has_name_add(old, seed_views(r@), job.name@);
            assert(has_name(old, job.name@) == is_stored(stored@, job.name@)) by {
                assert forall|k: int| 0 <= k < old.len() implies #[trigger] old[k].name
                    == stored@[k].name@ by {}
                if is_stored(stored@, job.name@) {
                    let k = choose|k: int|
                        0 <= k < stored@.len() && #[trigger] stored@[k].name@ == job.name@;
                    assert(old[k].name == job.name@);
                }
            }
        }
        if seed_job(stored, job) && !is_seeded(&r, job.name.as_str()) {
            let copy = CronJob {
                name: job.name.clone(),
                schedule: job.schedule.clone(),
                prompt: job.prompt.clone(),
                chat_id: job.chat_id,
                enabled: job.enabled,
            };
            let ghost before = r@;
            r.push(copy);
            proof {
                assert(seed_view(copy) == seed_view(*job));
                assert(seed_views(r@) =~= seed_views(before).push(seed_view(*job)));
                assert(old + seed_views(r@) =~= (old + seed_views(before)).push(seed_view(*job)));
            }
        }
        i += 1;
    }
    assert(all.take(all.len() as int) =~= all);
    r
}

fn is_seeded(jobs: &Vec<CronJob>, name: &str) -> (r: bool)
    ensures
        r == has_name(seed_views(jobs@), name@),
{
    let ghost all = seed_views(jobs@);
    let mut i: usize = 0;
    while i < jobs.len()
        invariant
            i <= jobs@.len(),
            all == seed_views(jobs@),
            forall|k: int| 0 <= k < i ==> (#[trigger] all[k]).name != name@,
        decreases jobs@.len() - i,
    {
        assert(all[i as int].name == jobs@[i as int].name@);
        if same(jobs[i].name.as_str(), name) {
            return true;
        }
        i += 1;
    }
    false
}

/// Whether the seed at `j` is the first of its name, and none of its name is stored.
pub open spec fn is_first_seed(stored: Seq<JobView>, seeds: Seq<JobView>, j: int) -> bool {
    &&& 0 <= j < seeds.len()
    &&& !has_name(stored, seeds[j].name)
    &&& forall|i: int| 0 <= i < j ==> (#[trigger] seeds[i]).name != seeds[j].name
}

proof fn lemma_seeded(stored: Seq<JobView>, seeds: Seq<JobView>)
    ensures
        stored.len() <= seeded(stored, seeds).len(),
        seeded(stored, seeds).take(stored.len() as int) == stored,
        forall|j: int| 0 <= j < seeds.len() ==> has_name(seeded(stored, seeds), #[trigger] seeds[j].name),
        forall|k: int|
            stored.len() <= k < seeded(stored, seeds).len() ==> exists|j: int|
                is_first_seed(stored, seeds, j) && #[trigger] seeds[j] == #[trigger] seeded(
                    stored,
                    seeds,
                )[k],
        forall|k: int, l: int|
            0 <= k < l < seeded(stored, seeds).len() && stored.len() <= l ==> (#[trigger] seeded(
                stored,
                seeds,
            )[k]).name != (#[trigger] seeded(stored, seeds)[l]).name,
    decreases seeds.len(),
{
    let after = seeded(stored, seeds);
    if seeds.len() == 0 {
        assert(stored.take(stored.len() as int) =~= stored);
    } else {
        let front = seeds.drop_last();
        let last = seeds.last();
        let before = seeded(stored, front);
        lemma_seeded(stored, front);
        assert(after.take(stored.len() as int) =~= before.take(stored.len() as int));
        assert forall|j: int| 0 <= j < seeds.len() implies has_name(after, #[trigger] seeds[j].name) by {
            if j < front.len() {
                assert(front[j] == seeds[j]);
                assert(has_name(before, front[j].name));
                let k = choose|k: int| 0 <= k < before.len() && #[trigger] before[k].name == seeds[j].name;
                assert(after[k].name == seeds[j].name);
            } else if !has_name(before, last.name) {
                assert(after[before.len() as int].name == seeds[j].name);
            }
        }
        assert forall|k: int| stored.len() <= k < after.len() implies exists|j: int|
            is_first_seed(stored, seeds, j) && #[trigger] seeds[j] == #[trigger] after[k] by {
            if k < before.len() {
                assert(after[k] == before[k]);
                let j = choose|j: int| is_first_seed(stored, front, j) && #[trigger] front[j] == before[k];
                assert(seeds[j] == front[j]);
                assert forall|i: int| 0 <= i < j implies (#[trigger] seeds[i]).name != seeds[j].name by {
                    assert(front[i] == seeds[i]);
                }
                assert(is_first_seed(stored, seeds, j));
            } else {
                let j = seeds.len() - 1;
                assert(seeds[j] == after[k]);
                assert(!has_name(before, last.name));
                assert forall|i: int| 0 <= i < j implies (#[trigger] seeds[i]).name != seeds[j].name by {
                    assert(front[i] == seeds[i]);
                    assert(has_name(before, front[i].name));
                }
                if has_name(stored, last.name) {
                    let m = choose|m: int| 0 <= m < stored.len() && #[trigger] stored[m].name == last.name;
                    assert(before.take(stored.len() as int)[m] == before[m]);
                    assert(before[m].name == last.name);
                }
                assert(is_first_seed(stored, seeds, j));
            }
        }
        assert forall|k: int, l: int| 0 <= k < l < after.len() && stored.len() <= l implies (
        #[trigger] after[k]).name != (#[trigger] after[l]).name by {
            assert(after[k] == before[k]);
            if l < before.len() {
                assert(after[l] == before[l]);
            } else {
                assert(before[k].name != last.name);
            }
        }
    }
}

proof fn lemma_nothing_to_seed(stored: Seq<JobView>, seeds: Seq<JobView>)
    requires
        forall|j: int| 0 <= j < seeds.len() ==> has_name(stored, #[trigger] seeds[j].name),
    ensures
        seeded(stored, seeds) == stored,
    decreases seeds.len(),
{
    if seeds.len() > 0 {
        let front = seeds.drop_last();
        assert forall|j: int| 0 <= j < front.len() implies has_name(stored, #[trigger] front[j].name) by {
            assert(front[j] == seeds[j]);
        }
        lemma_nothing_to_seed(stored, front);
        assert(seeds[seeds.len() - 1] == seeds.last());
    }
}

/// The jobs of the configuration are stored once, however often the program starts. What was
/// stored stays as it is; behind it stands, for each name that none of it has, one job, which is
/// the first of the configuration with that name in all its fields; and a later start adds
/// nothing.
pub proof fn seeds_are_stored_once(stored: Seq<JobView>, seeds: Seq<JobView>)
    ensures
        stored.len() <= seeded(stored, seeds).len(),
        seeded(stored, seeds).take(stored.len() as int) == stored,
        forall|j: int| 0 <= j < seeds.len() ==> has_name(seeded(stored, seeds), #[trigger] seeds[j].name),
        forall|k: int|
            stored.len() <= k < seeded(stored, seeds).len() ==> exists|j: int|
                is_first_seed(stored, seeds, j) && #[trigger] seeds[j] == #[trigger] seeded(
                    stored,
                    seeds,
                )[k],
        forall|k: int, l: int|
            0 <= k < l < seeded(stored, seeds).len() && stored.len() <= l ==> (#[trigger] seeded(
                stored,
                seeds,
            )[k]).name != (#[trigger] seeded(stored, seeds)[l]).name,
        seeded(seeded(stored, seeds), seeds) == seeded(stored, seeds),
{
    lemma_seeded(stored, seeds);
    lemma_nothing_to_seed(seeded(stored, seeds), seeds);
}

// ---------- what a job sends ----------

/// The first answer among the events, from `i` on.
pub open spec fn first_answer(events: Seq<EventView>, i: int) -> Option<Seq<char>>
    decreases events.len() - i,
{
    if i < 0 || i >= events.len() {
        None
    } else {
        match events[i] {
            EventView::Final(t) => Some(t),
            _ => first_answer(events, i + 1),
        }
    }
}

/// Whether the run came to its limit before the first answer, looking from `i` on.
pub open spec fn ran_out(events: Seq<EventView>, i: int) -> bool
    decreases events.len() - i,
{
    if i < 0 || i >= events.len() {
        false
    } else {
        match events[i] {
            EventView::Final(_) => false,
            EventView::ContinuePrompt(_) => true,
            _ => ran_out(events, i + 1),
        }
    }
}

/// The text that a job sends: the answer, or why there is none. Nobody is there to be asked
/// whether to go on.
pub open spec fn job_text(events: Seq<EventView>) -> Seq<char> {
    let answer = first_answer(events, 0);
    if answer is Some {
        answer->0
    } else if ran_out(events, 0) {
        "（已达最大轮次上限，定时任务无人值守，自动停止）"@
    } else {
        "（无输出）"@
    }
}

/// Whether a job sends nothing: its answer is empty, or marked as not meant for the user.
pub open spec fn kept_back(events: Seq<EventView>) -> bool {
    first_answer(events, 0) matches Some(t) && (t.len() == 0 || silent(t))
}

/// The message that a job sends after its run, where it sends one: [`job_text`], of which only the
/// start is sent where it is long.
pub fn trigger_job(chat_id: i64, events: &Vec<AgentEvent>) -> (r: Option<Json>)
    ensures
        r is None <==> kept_back(event_views(events@)),
        r matches Some(body) ==> body@ == send_body(
            chat_id,
            first_chars(job_text(event_views(events@)), 4000),
            false,
        ),
{
    let ghost all = event_views(events@);
    let mut reply = "".to_owned();
    let mut exhausted = false;
    let mut i: usize = 0;
    let mut found = false;
    while i < events.len() && !found
        invariant
            i <= events@.len(),
            all == event_views(events@),
            all.len() == events@.len(),
            found ==> first_answer(all, 0) == Some(reply@) && exhausted == ran_out(all, 0),
            !found ==> {
                &&& reply@ == ""@
                &&& first_answer(all, 0) == first_answer(all, i as int)
                &&& ran_out(all, 0) == (exhausted || ran_out(all, i as int))
            },
        decreases events@.len() - i + if found {
            0int
        } else {
            1int
        },
    {
        assert(all[i as int] == events@[i as int]@);
        match &events[i] {
            AgentEvent::Final(t) => {
                reply = t.clone();
                found = true;
            },
            AgentEvent::ContinuePrompt(_) => {
                exhausted = true;
                i += 1;
            },
            _ => {
                i += 1;
            },
        }
    }
    if found && (reply.as_str().is_empty() || is_silent(reply.as_str())) {
        return None;
    }
    if !found {
        reply = if exhausted {
            "（已达最大轮次上限，定时任务无人值守，自动停止）".to_owned()
        } else {
            "（无输出）".to_owned()
        };
    }
    let safe = take_chars(reply.as_str(), 4000);
    Some(send_message(chat_id, safe.as_str(), false))
}

pub open spec fn push_failure(status: Seq<char>, text: Seq<char>) -> Seq<char> {
    "Telegram 推送失败 ["@ + status + "]: "@ + text
}

/// What is said where the message of a job could not be sent.
pub fn push_error(status: &str, text: &str) -> (r: String)
    ensures
        r@ == push_failure(status@, text@),
{
    let mut r = "Telegram 推送失败 [".to_owned();
    r.append(status);
    r.append("]: ");
    r.append(text);
    r
}

} // verus!
