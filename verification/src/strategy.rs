//! Which neighbour search a frame uses.

use crate::text::same;
use vstd::prelude::*;
use vstd::string::StringExecFns;

verus! {

/// Which neighbour search strategy a frame uses.
#[derive(Debug, Clone, Copy, PartialEq, Eq, Structural)]
pub enum Strategy {
    /// All-pairs search. Exact but quadratic: for validation and for small swarms, where it is faster
    /// than the grid because it needs no sort.
    Naive,
    /// Spatial grid search over the 27 cells around each agent.
    Grid,
}

/// Swarms below this many agents are searched naively.
pub const GRID_CROSSOVER: u32 = 4096;

impl Default for Strategy {
    fn default() -> (strategy: Self)
        ensures
            strategy == Strategy::Naive,
    {
        Strategy::Naive
    }
}

impl Strategy {
    /// The faster strategy for a swarm of `count` agents.
    pub open spec fn spec_for_count(count: u32) -> Strategy {
        if count < GRID_CROSSOVER {
            Strategy::Naive
        } else {
            Strategy::Grid
        }
    }

    /// The faster strategy for a swarm of `count` agents.
    pub fn for_count(count: u32) -> (strategy: Strategy)
        ensures
            strategy == Strategy::spec_for_count(count),
    {
        if count < GRID_CROSSOVER {
            Strategy::Naive
        } else {
            Strategy::Grid
        }
    }

    /// The strategy a frame runs: the forced one if there is one, else the one the count asks for.
    pub fn choose_for(forced: Option<Strategy>, count: u32) -> (strategy: Strategy)
        ensures
            strategy == (match forced {
                Some(s) => s,
                None => Strategy::spec_for_count(count),
            }),
    {
        match forced {
            Some(strategy) => strategy,
            None => Strategy::for_count(count),
        }
    }

    /// The strategy a name stands for, or the complaint about the name.
    pub open spec fn spec_parse(name: Seq<char>) -> Result<Strategy, Seq<char>> {
        if name == "naive"@ {
            Ok(Strategy::Naive)
        } else if name == "grid"@ {
            Ok(Strategy::Grid)
        } else {
            Err("--strategy "@ + name + ": expected naive, grid or auto"@)
        }
    }

    /// Reads the name of a strategy.
    pub fn parse(name: &str) -> (r: Result<Strategy, String>)
        ensures
            match r {
                Ok(strategy) => Strategy::spec_parse(name@) == Ok::<Strategy, Seq<char>>(strategy),
                Err(e) => Strategy::spec_parse(name@) == Err::<Strategy, Seq<char>>(e@),
            },
    {
        if same(name, "naive") {
            Ok(Strategy::Naive)
        } else if same(name, "grid") {
            Ok(Strategy::Grid)
        } else {
            Err("--strategy ".to_owned().concat(name).concat(": expected naive, grid or auto"))
        }
    }
}

/// Swarms of 4096 agents and more are searched with the grid, smaller ones naively.
pub proof fn law_large_swarms_use_the_grid(count: u32)
    ensures
        count >= 4096 ==> Strategy::spec_for_count(count) == Strategy::Grid,
        count <= 4095 ==> Strategy::spec_for_count(count) == Strategy::Naive,
{
}

/// Each strategy has a name of its own, and no other name is understood.
pub proof fn law_strategies_go_by_their_names(name: Seq<char>)
    ensures
        Strategy::spec_parse(name) == Ok::<Strategy, Seq<char>>(Strategy::Naive) <==> name == "naive"@,
        Strategy::spec_parse(name) == Ok::<Strategy, Seq<char>>(Strategy::Grid) <==> name == "grid"@,
        name != "naive"@ && name != "grid"@ ==> Strategy::spec_parse(name) is Err,
{
    reveal_strlit("naive");
    reveal_strlit("grid");
    assert("naive"@.len() != "grid"@.len());
}

} // verus!
