//! What the outside world contributes to the start of a countdown: the time,
//! a passage, and the seeds of the simulated players.

use crate::clock::current_timestamp;
use crate::model::BotSeedView;
use crate::model::BOT_SPEED_MAX;
use crate::model::BOT_SPEED_MIN;
use crate::model::StartInputsView;
use crate::passages::get_random_passage;
use crate::passages::is_bundled;
use rand::Rng;
use rand::rngs::ThreadRng;
use uuid::Uuid;
use vstd::prelude::*;

verus! {

/// rand's `ThreadRng`: the random number generator of a thread. Nothing is
/// known of what a value holds.
#[verifier::external_type_specification]
#[verifier::external_body]
pub struct ExThreadRng(ThreadRng);

/// rand's `thread_rng`: the random number generator of the current thread.
#[verifier::external_body]
fn thread_generator() -> (rng: ThreadRng) {
    rand::thread_rng()
}

/// rand's `Rng::gen_range` on a half-open range of `u32`: a value that is at
/// least `low` and less than `high`. An empty range is left out, since the
/// call panics on it.
#[verifier::external_body]
fn random_in(rng: &mut ThreadRng, low: u32, high: u32) -> (value: u32)
    requires
        low < high,
    ensures
        low <= value < high,
{
    rng.gen_range(low..high)
}

/// uuid's `Uuid::new_v4`, as text: a random identifier. Nothing is claimed of
/// it.
#[verifier::external_body]
fn random_token() -> (token: String) {
    Uuid::new_v4().to_string()
}

/// What makes one simulated player.
#[derive(Debug)]
pub struct BotSeed {
    /// Sets the player's id apart from every other.
    pub token: String,
    /// Typing speed in thousandths of a word per minute.
    pub speed: u32,
}

impl View for BotSeed {
    type V = BotSeedView;

    open spec fn view(&self) -> BotSeedView {
        BotSeedView { token: self.token@, speed: self.speed }
    }
}

/// What the outside world contributes when a countdown starts.
#[derive(Debug)]
pub struct StartInputs {
    /// The time, in milliseconds since the Unix epoch.
    pub now: u64,
    /// The passage to type.
    pub passage: String,
    /// One seed for each simulated player that may be needed.
    pub seeds: Vec<BotSeed>,
}

/// A list of seeds as mathematical values.
pub open spec fn seeds_view(seeds: Seq<BotSeed>) -> Seq<BotSeedView> {
    seeds.map_values(|s: BotSeed| s@)
}

impl View for StartInputs {
    type V = StartInputsView;

    open spec fn view(&self) -> StartInputsView {
        StartInputsView { now: self.now, passage: self.passage@, seeds: seeds_view(self.seeds@) }
    }
}

/// Whether every seed gives a speed that a simulated player may have.
pub open spec fn speeds_in_range(seeds: Seq<BotSeedView>) -> bool {
    forall|i: int| 0 <= i < seeds.len() ==> BOT_SPEED_MIN <= (#[trigger] seeds[i]).speed < BOT_SPEED_MAX
}

/// Draws `count` seeds: a random token and a random speed for each.
pub fn draw_seeds(count: usize) -> (seeds: Vec<BotSeed>)
    ensures
        seeds@.len() == count,
        speeds_in_range(seeds_view(seeds@)),
{
    let mut seeds: Vec<BotSeed> = Vec::new();
    let mut rng = thread_generator();
    let mut i: usize = 0;
    while i < count
        invariant
            i <= count,
            seeds@.len() == i,
            speeds_in_range(seeds_view(seeds@)),
        decreases count - i,
    {
        let speed = random_in(&mut rng, BOT_SPEED_MIN, BOT_SPEED_MAX);
        let token = random_token();
        let ghost before = seeds@;
        seeds.push(BotSeed { token, speed });
        proof {
            assert forall|k: int| 0 <= k < seeds@.len() implies BOT_SPEED_MIN <= (
            #[trigger] seeds_view(seeds@)[k]).speed < BOT_SPEED_MAX by {
                if k < i {
                    assert(seeds_view(seeds@)[k] == seeds_view(before)[k]);
                }
            }
        }
        i += 1;
    }
    seeds
}

/// Reads the clock, picks a bundled passage and draws the seeds of three
/// simulated players: enough for any start, which takes two people and fills
/// up to five.
pub fn draw_start_inputs() -> (inputs: StartInputs)
    ensures
        inputs@.seeds.len() == 3,
        speeds_in_range(inputs@.seeds),
        is_bundled(inputs@.passage),
        inputs@.passage.len() > 0,
{
    let now = current_timestamp();
    let passage = get_random_passage().to_owned();
    let seeds = draw_seeds(3);
    StartInputs { now, passage, seeds }
}

/// The inputs of an operation that cannot start a countdown: the time, an
/// empty passage and no seeds.
pub fn idle_inputs(now: u64) -> (inputs: StartInputs)
    ensures
        inputs@ == (StartInputsView { now, passage: Seq::empty(), seeds: Seq::empty() }),
{
    let inputs = StartInputs { now, passage: String::new(), seeds: Vec::new() };
    assert(seeds_view(inputs.seeds@) =~= Seq::<BotSeedView>::empty());
    inputs
}

} // verus!
