//! The level catalog and the level-flow commands.
//!
//! A level grants the player servers and upgrade points, binds a set of
//! load schedules, and sets the two pass thresholds.  Thresholds are in
//! permille (required handled share) and milliseconds (required average
//! response time).

use vstd::prelude::*;

use crate::limits::{MAX_POINTS, MAX_SCHEDULES, MAX_SERVERS, MAX_SIM_MS};
use crate::load_scenarios::LoadSchedule;

verus! {

/// Command: rebuild the current level from scratch (servers, upgrades,
/// requests and statistics all reset).
pub struct ResetCurrentLevel;

/// Command: replay the current level but keep the built servers and their
/// upgrades.
pub struct ReloadCurrentLevel;

/// Command: advance to the next level, or finish the game after the last
/// one.
pub struct LoadNextLevel;

/// One level of the game.
pub struct Level {
    pub title: String,
    pub schedules: Vec<LoadSchedule>,
    /// How many servers to give the player.
    pub available_servers: usize,
    /// How many upgrade points to give the player.
    pub upgrade_points: usize,
    pub intro_text: String,
    pub success_text: String,
    pub failure_texts: Vec<String>,
    /// Required handled share, in permille.
    pub required_handled_requests: u32,
    /// Required average response time, in milliseconds.
    pub required_avg_response_time: u64,
}

impl Level {
    /// Grants, thresholds and schedules stay inside the supported caps;
    /// schedules start fresh.
    pub open spec fn wf(self) -> bool {
        &&& self.available_servers <= MAX_SERVERS
        &&& self.upgrade_points <= MAX_POINTS
        &&& self.required_handled_requests <= 1000
        &&& self.required_avg_response_time <= MAX_SIM_MS
        &&& self.schedules@.len() <= MAX_SCHEDULES
        &&& forall|i: int| 0 <= i < self.schedules@.len() ==> {
            &&& (#[trigger] self.schedules@[i]).wf()
            &&& !self.schedules@[i].active
            &&& !self.schedules@[i].completed
        }
    }
}

/// Turn a list of string slices into owned strings.
pub fn strs(s: Vec<&str>) -> (r: Vec<String>)
    ensures
        r@.len() == s@.len(),
        forall|i: int| 0 <= i < s@.len() ==> #[trigger] r@[i]@ == s@[i]@,
{
    let mut ret: Vec<String> = Vec::new();
    let mut i: usize = 0;
    while i < s.len()
        invariant
            i <= s@.len(),
            ret@.len() == i,
            forall|k: int| 0 <= k < i ==> #[trigger] ret@[k]@ == s@[k]@,
        decreases s@.len() - i,
    {
        ret.push(s[i].to_owned());
        i = i + 1;
    }
    ret
}

/// The numbers of the built-in catalog: three levels of rising load, each
/// with one triangular schedule, and with these grants and thresholds.
pub open spec fn is_standard_catalog(s: Seq<Level>) -> bool {
    &&& s.len() == 3
    &&& s[0].available_servers == 1 && s[0].upgrade_points == 5
    &&& s[0].required_handled_requests == 1000 && s[0].required_avg_response_time == 10_000
    &&& s[0].schedules@.len() == 1
    &&& s[0].schedules@[0].rampup == 5000 && s[0].schedules@[0].max_rps == 2
        && s[0].schedules@[0].rampdown == 5000
    &&& s[1].available_servers == 4 && s[1].upgrade_points == 15
    &&& s[1].required_handled_requests == 800 && s[1].required_avg_response_time == 10_000
    &&& s[1].schedules@.len() == 1
    &&& s[1].schedules@[0].rampup == 10_000 && s[1].schedules@[0].max_rps == 5
        && s[1].schedules@[0].rampdown == 10_000
    &&& s[2].available_servers == 6 && s[2].upgrade_points == 80
    &&& s[2].required_handled_requests == 700 && s[2].required_avg_response_time == 20_000
    &&& s[2].schedules@.len() == 1
    &&& s[2].schedules@[0].rampup == 30_000 && s[2].schedules@[0].max_rps == 20
        && s[2].schedules@[0].rampdown == 30_000
}

/// The built-in level catalog, in play order.
pub fn levels() -> (r: Vec<Level>)
    ensures
        r@.len() == 3,
        forall|i: int| 0 <= i < r@.len() ==> (#[trigger] r@[i]).wf(),
        is_standard_catalog(r@),
{
    let mut ret: Vec<Level> = Vec::new();

    let mut schedules1: Vec<LoadSchedule> = Vec::new();
    schedules1.push(LoadSchedule::new(5000, 2, 5000, (1, 1)));
    ret.push(Level {
        title: "Alpha Test".to_owned(),
        schedules: schedules1,
        intro_text:
            "For this first test, we don't really care about response times that much, but every single request has to be handled, don't drop any!".to_owned(),
        failure_texts: strs(vec![
            "You couldn't even handle the alpha test? :(",
            "I thought you said you've done this before!",
            "If you can't handle this, I don't know...",
            "Erhm, maybe I know some other smart people",
        ]),
        success_text: "Woah, nice! Now we can finally move on to launching the website!".to_owned(),
        available_servers: 1,
        upgrade_points: 5,
        required_handled_requests: 1000,
        required_avg_response_time: 10_000,
    });

    let mut schedules2: Vec<LoadSchedule> = Vec::new();
    schedules2.push(LoadSchedule::new(10_000, 5, 10_000, (1, 1)));
    ret.push(Level {
        title: "Website Launch".to_owned(),
        schedules: schedules2,
        intro_text:
            "Time to launch the website! Expect a lot more requests over a longer timeframe. I've gotten you some more servers too, don't forget you can change their mode to Proxy!".to_owned(),
        success_text: "Wow, that went great! Only time can tell what will come next...".to_owned(),
        failure_texts: strs(vec![
            "This was our only shot and you ruined it...",
            "Not sure how we're supposed to recover from this",
            "But the alpha test went well, and now this?",
            "Sometimes I think you're not even trying",
        ]),
        available_servers: 4,
        upgrade_points: 15,
        required_handled_requests: 800,
        required_avg_response_time: 10_000,
    });

    let mut schedules3: Vec<LoadSchedule> = Vec::new();
    schedules3.push(LoadSchedule::new(30_000, 20, 30_000, (1, 1)));
    ret.push(Level {
        title: "GMTK Game Jam".to_owned(),
        schedules: schedules3,
        intro_text:
            "This crazy YouTube person has decided to use our platform for hosting their game jam! It's gonna be a ton of fun, but prepare for an astronomical load! I've given you access to extra hardware of course".to_owned(),
        success_text: "Wow, that went great! Only time can tell what will come next...".to_owned(),
        failure_texts: strs(vec![
            "We knew it would be difficult, but who knew this hard?",
            "Maybe we should just give up...",
            "Sometimes, the world is not on your side",
            "Where did you learn this stuff anyways?",
            "Not so easy now when you don't have a LLM huh?",
        ]),
        available_servers: 6,
        upgrade_points: 80,
        required_handled_requests: 700,
        required_avg_response_time: 20_000,
    });

    ret
}

/// The level catalog and the index of the level being played.
pub struct GameLevels {
    /// Index of the current level.
    pub current: usize,
    pub levels: Vec<Level>,
}

impl GameLevels {
    /// The index stays on a level and every level is well formed.
    pub open spec fn wf(self) -> bool {
        &&& self.current < self.levels@.len()
        &&& forall|i: int| 0 <= i < self.levels@.len() ==> (#[trigger] self.levels@[i]).wf()
    }

    /// The level currently being played.
    pub fn active_level(&self) -> (r: &Level)
        requires
            self.current < self.levels@.len(),
        ensures
            *r == self.levels@[self.current as int],
    {
        &self.levels[self.current]
    }
}

impl Default for GameLevels {
    /// The catalog opened at its first level.
    fn default() -> (r: GameLevels)
        ensures
            r.wf(),
            r.current == 0,
            is_standard_catalog(r.levels@),
    {
        GameLevels { current: 0, levels: levels() }
    }
}

} // verus!
