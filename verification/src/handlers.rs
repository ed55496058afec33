//! The recovery techniques of a patch pass, and the order in which they are
//! brought to bear.

use crate::mapfile_text::string_of;
use vstd::prelude::*;

verus! {

/// The read speed a technique asks for.
#[derive(Debug, Clone, Copy, PartialEq, Eq, Structural)]
pub enum SpeedPref {
    Max,
    Min,
}

/// How long the drive may work on one read.
#[derive(Debug, Clone, Copy, PartialEq, Eq, Structural)]
pub enum TimeoutPref {
    /// Ten seconds.
    Fast,
    /// Sixty seconds.
    Deep,
}

/// The way a technique walks a range.
#[derive(Debug, Clone, Copy, PartialEq, Eq, Structural)]
pub enum Direction {
    Forward,
    Reverse,
}

/// How a technique reads.
#[derive(Debug, Clone, Copy, PartialEq, Eq, Structural)]
pub struct ReadParams {
    pub speed: SpeedPref,
    /// Whether the drive must read the medium rather than its cache.
    pub fua: bool,
    pub timeout: TimeoutPref,
}

/// A technique with its parameters.
#[derive(Debug, Clone, Copy, PartialEq, Eq, Structural)]
pub enum Handler {
    /// Probe the middle of a range for readable islands.
    Bisect { params: ReadParams },
    /// Leap through long dead runs.
    Jump { params: ReadParams },
    /// Walk a range from one end.
    Linear { direction: Direction, params: ReadParams },
    /// Read the good run before a bad one first.
    CachePrime { params: ReadParams },
    /// Approach from alternating sides.
    Oscillate { params: ReadParams },
    /// Search for a speed at which a sector can be read.
    SpeedSweep { params: ReadParams },
}

/// Full speed, short timeout.
pub open spec fn fast() -> ReadParams {
    ReadParams { speed: SpeedPref::Max, fua: false, timeout: TimeoutPref::Fast }
}

/// Full speed, long timeout.
pub open spec fn deep() -> ReadParams {
    ReadParams { speed: SpeedPref::Max, fua: false, timeout: TimeoutPref::Deep }
}

/// A slower spindle: more servo dwell and error correction per sector.
pub open spec fn min_deep() -> ReadParams {
    ReadParams { speed: SpeedPref::Min, fua: false, timeout: TimeoutPref::Deep }
}

/// A fresh physical read each time.
pub open spec fn fua_deep() -> ReadParams {
    ReadParams { speed: SpeedPref::Max, fua: true, timeout: TimeoutPref::Deep }
}

/// Both, for the hardest sectors.
pub open spec fn slow_fua() -> ReadParams {
    ReadParams { speed: SpeedPref::Min, fua: true, timeout: TimeoutPref::Deep }
}

impl ReadParams {
    /// Full speed, short timeout.
    pub fn fast() -> (r: ReadParams)
        ensures
            r == fast(),
    {
        ReadParams { speed: SpeedPref::Max, fua: false, timeout: TimeoutPref::Fast }
    }

    /// Full speed, long timeout.
    pub fn deep() -> (r: ReadParams)
        ensures
            r == deep(),
    {
        ReadParams { speed: SpeedPref::Max, fua: false, timeout: TimeoutPref::Deep }
    }
}

/// How many tiers the ladder has: fast scouts over every range, deep reads of
/// what they leave, specialists for the hardened rest.
pub const PATCH_TIERS: usize = 3;

/// The techniques of a tier. Every tier from the third on is the last.
pub open spec fn tier_roster(tier: int) -> Seq<Handler> {
    if tier == 0 {
        seq![
            Handler::Bisect { params: fast() },
            Handler::Jump { params: fast() },
            Handler::Linear { direction: Direction::Reverse, params: fast() },
            Handler::Linear { direction: Direction::Forward, params: fast() },
        ]
    } else if tier == 1 {
        seq![
            Handler::Linear { direction: Direction::Reverse, params: deep() },
            Handler::Linear { direction: Direction::Forward, params: deep() },
        ]
    } else {
        seq![
            Handler::Linear { direction: Direction::Reverse, params: min_deep() },
            Handler::Linear { direction: Direction::Forward, params: min_deep() },
            Handler::Linear { direction: Direction::Forward, params: fua_deep() },
            Handler::Linear { direction: Direction::Reverse, params: fua_deep() },
            Handler::Bisect { params: fua_deep() },
            Handler::Linear { direction: Direction::Forward, params: slow_fua() },
            Handler::CachePrime { params: deep() },
            Handler::Oscillate { params: deep() },
            Handler::Oscillate { params: min_deep() },
            Handler::SpeedSweep { params: deep() },
        ]
    }
}

/// All techniques, in the order of their tiers.
pub open spec fn full_roster() -> Seq<Handler> {
    tier_roster(0) + tier_roster(1) + tier_roster(2)
}

/// The techniques of a tier.
pub fn build_tier_handlers(tier: usize) -> (r: Vec<Handler>)
    ensures
        r@ == tier_roster(tier as int),
{
    let r = match tier {
        0 => vec![
            Handler::Bisect { params: ReadParams::fast() },
            Handler::Jump { params: ReadParams::fast() },
            Handler::Linear { direction: Direction::Reverse, params: ReadParams::fast() },
            Handler::Linear { direction: Direction::Forward, params: ReadParams::fast() },
        ],
        1 => vec![
            Handler::Linear { direction: Direction::Reverse, params: ReadParams::deep() },
            Handler::Linear { direction: Direction::Forward, params: ReadParams::deep() },
        ],
        _ => {
            let min_deep = ReadParams {
                speed: SpeedPref::Min,
                fua: false,
                timeout: TimeoutPref::Deep,
            };
            let fua_deep = ReadParams {
                speed: SpeedPref::Max,
                fua: true,
                timeout: TimeoutPref::Deep,
            };
            let slow_fua = ReadParams {
                speed: SpeedPref::Min,
                fua: true,
                timeout: TimeoutPref::Deep,
            };
            vec![
                Handler::Linear { direction: Direction::Reverse, params: min_deep },
                Handler::Linear { direction: Direction::Forward, params: min_deep },
                Handler::Linear { direction: Direction::Forward, params: fua_deep },
                Handler::Linear { direction: Direction::Reverse, params: fua_deep },
                Handler::Bisect { params: fua_deep },
                Handler::Linear { direction: Direction::Forward, params: slow_fua },
                Handler::CachePrime { params: ReadParams::deep() },
                Handler::Oscillate { params: ReadParams::deep() },
                Handler::Oscillate { params: min_deep },
                Handler::SpeedSweep { params: ReadParams::deep() },
            ]
        },
    };
    assert(r@ =~= tier_roster(tier as int));
    r
}

/// All techniques in one pool, for a scheduler that ranks them by what they
/// recover.
pub fn build_flat_pool() -> (r: Vec<Handler>)
    ensures
        r@ == full_roster(),
        r@.len() == 16,
{
    let mut pool: Vec<Handler> = build_tier_handlers(0);
    let mut deep: Vec<Handler> = build_tier_handlers(1);
    let mut last: Vec<Handler> = build_tier_handlers(2);
    pool.append(&mut deep);
    pool.append(&mut last);
    assert(pool@ =~= full_roster());
    pool
}

/// The name of a technique's kind.
pub open spec fn kind_name(h: Handler) -> Seq<char> {
    match h {
        Handler::Bisect { .. } => "bisect"@,
        Handler::Jump { .. } => "jump"@,
        Handler::Linear { direction: Direction::Forward, .. } => "linear-fwd"@,
        Handler::Linear { direction: Direction::Reverse, .. } => "linear-rev"@,
        Handler::CachePrime { .. } => "cache-prime"@,
        Handler::Oscillate { .. } => "oscillate"@,
        Handler::SpeedSweep { .. } => "speed-sweep"@,
    }
}

/// The parameters of a technique.
pub open spec fn params_of(h: Handler) -> ReadParams {
    match h {
        Handler::Bisect { params }
        | Handler::Jump { params }
        | Handler::Linear { params, .. }
        | Handler::CachePrime { params }
        | Handler::Oscillate { params }
        | Handler::SpeedSweep { params } => params,
    }
}

/// The three marks that name parameters: speed, timeout, cache.
pub open spec fn params_name(p: ReadParams) -> Seq<char> {
    seq![
        '-',
        if p.speed == SpeedPref::Max {
            'm'
        } else {
            's'
        },
        if p.timeout == TimeoutPref::Fast {
            'f'
        } else {
            'd'
        },
        if p.fua {
            'u'
        } else {
            'c'
        },
    ]
}

impl Handler {
    /// The parameters.
    pub fn params(&self) -> (r: ReadParams)
        ensures
            r == params_of(*self),
    {
        match *self {
            Handler::Bisect { params } => params,
            Handler::Jump { params } => params,
            Handler::Linear { direction: _, params } => params,
            Handler::CachePrime { params } => params,
            Handler::Oscillate { params } => params,
            Handler::SpeedSweep { params } => params,
        }
    }

    /// The name a scoreboard keeps the technique under: its kind, then its
    /// parameters.
    pub fn name(&self) -> (r: String)
        ensures
            r@ == kind_name(*self) + params_name(params_of(*self)),
    {
        let kind: &str = match *self {
            Handler::Bisect { .. } => "bisect",
            Handler::Jump { .. } => "jump",
            Handler::Linear { direction: Direction::Forward, .. } => "linear-fwd",
            Handler::Linear { direction: Direction::Reverse, .. } => "linear-rev",
            Handler::CachePrime { .. } => "cache-prime",
            Handler::Oscillate { .. } => "oscillate",
            Handler::SpeedSweep { .. } => "speed-sweep",
        };
        let p = self.params();
        let mut out: Vec<char> = crate::mapfile_text::chars_of(kind);
        out.push('-');
        out.push(
            match p.speed {
                SpeedPref::Max => 'm',
                SpeedPref::Min => 's',
            },
        );
        out.push(
            match p.timeout {
                TimeoutPref::Fast => 'f',
                TimeoutPref::Deep => 'd',
            },
        );
        out.push(
            if p.fua {
                'u'
            } else {
                'c'
            },
        );
        assert(out@ =~= kind_name(*self) + params_name(params_of(*self)));
        string_of(&out)
    }
}

/// Only the scouts are in a hurry: at tier 0 every technique has the short
/// timeout and full speed, and at every later tier the long timeout. The scouts
/// and the deep reads leave the cache alone.
pub proof fn law_only_the_scouts_are_in_a_hurry(tier: int, i: int)
    requires
        0 <= tier,
        0 <= i < tier_roster(tier).len(),
    ensures
        ({
            let p = params_of(tier_roster(tier)[i]);
            &&& tier == 0 <==> p.timeout is Fast
            &&& tier > 0 <==> p.timeout is Deep
            &&& tier <= 1 ==> p.speed is Max && !p.fua
        }),
{
}

/// The ladder, technique by technique: four scouts, two deep reads, and ten
/// specialists at every tier from the third on.
pub proof fn law_the_ladder(tier: int)
    requires
        0 <= tier,
    ensures
        ({
            let r = tier_roster(0);
            &&& r.len() == 4
            &&& r[0] == (Handler::Bisect {
                    params: ReadParams { speed: SpeedPref::Max, fua: false, timeout: TimeoutPref::Fast },
                })
            &&& r[1] == (Handler::Jump {
                    params: ReadParams { speed: SpeedPref::Max, fua: false, timeout: TimeoutPref::Fast },
                })
            &&& r[2] == (Handler::Linear {
                    direction: Direction::Reverse,
                    params: ReadParams { speed: SpeedPref::Max, fua: false, timeout: TimeoutPref::Fast },
                })
            &&& r[3] == (Handler::Linear {
                    direction: Direction::Forward,
                    params: ReadParams { speed: SpeedPref::Max, fua: false, timeout: TimeoutPref::Fast },
                })
        }),
        ({
            let r = tier_roster(1);
            &&& r.len() == 2
            &&& r[0] == (Handler::Linear {
                    direction: Direction::Reverse,
                    params: ReadParams { speed: SpeedPref::Max, fua: false, timeout: TimeoutPref::Deep },
                })
            &&& r[1] == (Handler::Linear {
                    direction: Direction::Forward,
                    params: ReadParams { speed: SpeedPref::Max, fua: false, timeout: TimeoutPref::Deep },
                })
        }),
        tier >= 2 ==> {
            let r = tier_roster(tier);
            &&& r.len() == 10
            &&& r[0] == (Handler::Linear {
                    direction: Direction::Reverse,
                    params: ReadParams { speed: SpeedPref::Min, fua: false, timeout: TimeoutPref::Deep },
                })
            &&& r[1] == (Handler::Linear {
                    direction: Direction::Forward,
                    params: ReadParams { speed: SpeedPref::Min, fua: false, timeout: TimeoutPref::Deep },
                })
            &&& r[2] == (Handler::Linear {
                    direction: Direction::Forward,
                    params: ReadParams { speed: SpeedPref::Max, fua: true, timeout: TimeoutPref::Deep },
                })
            &&& r[3] == (Handler::Linear {
                    direction: Direction::Reverse,
                    params: ReadParams { speed: SpeedPref::Max, fua: true, timeout: TimeoutPref::Deep },
                })
            &&& r[4] == (Handler::Bisect {
                    params: ReadParams { speed: SpeedPref::Max, fua: true, timeout: TimeoutPref::Deep },
                })
            &&& r[5] == (Handler::Linear {
                    direction: Direction::Forward,
                    params: ReadParams { speed: SpeedPref::Min, fua: true, timeout: TimeoutPref::Deep },
                })
            &&& r[6] == (Handler::CachePrime {
                    params: ReadParams { speed: SpeedPref::Max, fua: false, timeout: TimeoutPref::Deep },
                })
            &&& r[7] == (Handler::Oscillate {
                    params: ReadParams { speed: SpeedPref::Max, fua: false, timeout: TimeoutPref::Deep },
                })
            &&& r[8] == (Handler::Oscillate {
                    params: ReadParams { speed: SpeedPref::Min, fua: false, timeout: TimeoutPref::Deep },
                })
            &&& r[9] == (Handler::SpeedSweep {
                    params: ReadParams { speed: SpeedPref::Max, fua: false, timeout: TimeoutPref::Deep },
                })
        },
{
}

/// The pool holds the techniques of all three tiers, scouts first, and there
/// are three tiers.
pub proof fn law_the_pool_is_the_ladder(i: int)
    requires
        0 <= i < 16,
    ensures
        PATCH_TIERS == 3,
        full_roster().len() == 16,
        i < 4 ==> full_roster()[i] == tier_roster(0)[i],
        4 <= i < 6 ==> full_roster()[i] == tier_roster(1)[i - 4],
        6 <= i ==> full_roster()[i] == tier_roster(2)[i - 6],
{
}

/// The name of a technique: its kind, then a dash, its speed, its timeout, and
/// whether it goes round the cache.
pub proof fn law_what_a_name_says(h: Handler, p: ReadParams)
    requires
        params_of(h) == p,
    ensures
        params_name(p).len() == 4 && params_name(p)[0] == '-',
        p.speed is Max ==> params_name(p)[1] == 'm',
        p.speed is Min ==> params_name(p)[1] == 's',
        p.timeout is Fast ==> params_name(p)[2] == 'f',
        p.timeout is Deep ==> params_name(p)[2] == 'd',
        p.fua ==> params_name(p)[3] == 'u',
        !p.fua ==> params_name(p)[3] == 'c',
        h is Bisect ==> kind_name(h) == "bisect"@,
        h is Jump ==> kind_name(h) == "jump"@,
        h matches Handler::Linear { direction, params } ==> kind_name(h) == if direction is Forward {
            "linear-fwd"@
        } else {
            "linear-rev"@
        },
        h is CachePrime ==> kind_name(h) == "cache-prime"@,
        h is Oscillate ==> kind_name(h) == "oscillate"@,
        h is SpeedSweep ==> kind_name(h) == "speed-sweep"@,
        match h {
            Handler::Bisect { params } => params == p,
            Handler::Jump { params } => params == p,
            Handler::Linear { direction, params } => params == p,
            Handler::CachePrime { params } => params == p,
            Handler::Oscillate { params } => params == p,
            Handler::SpeedSweep { params } => params == p,
        },
{
}

/// No two techniques share a name: what one recovers is never credited to
/// another.
pub proof fn law_names_are_unique(a: Handler, b: Handler)
    requires
        kind_name(a) + params_name(params_of(a)) == kind_name(b) + params_name(params_of(b)),
    ensures
        a == b,
{
    let x = kind_name(a) + params_name(params_of(a));
    let y = kind_name(b) + params_name(params_of(b));
    let ka = kind_name(a);
    let kb = kind_name(b);
    assert(x.len() == ka.len() + 4 && y.len() == kb.len() + 4);
    assert(ka.len() == kb.len());
    let n = ka.len() as int;
    assert(x.take(n) =~= ka);
    assert(y.take(n) =~= kb);
    assert(x[n + 1] == params_name(params_of(a))[1] && y[n + 1] == params_name(params_of(b))[1]);
    assert(x[n + 2] == params_name(params_of(a))[2] && y[n + 2] == params_name(params_of(b))[2]);
    assert(x[n + 3] == params_name(params_of(a))[3] && y[n + 3] == params_name(params_of(b))[3]);
    reveal_strlit("bisect");
    reveal_strlit("jump");
    reveal_strlit("linear-fwd");
    reveal_strlit("linear-rev");
    reveal_strlit("cache-prime");
    reveal_strlit("oscillate");
    reveal_strlit("speed-sweep");
    assert("linear-fwd"@[7] != "linear-rev"@[7]);
    assert("cache-prime"@[0] != "speed-sweep"@[0]);
    assert(ka == kb);
    assert(params_of(a) == params_of(b));
}

/// No technique stands in the pool twice.
pub proof fn law_pool_has_no_duplicates(i: int, j: int)
    requires
        0 <= i < j < full_roster().len(),
    ensures
        full_roster()[i] != full_roster()[j],
{
    let r = full_roster();
    assert(r.len() == 16);
    assert(r[0] == tier_roster(0)[0] && r[1] == tier_roster(0)[1] && r[2] == tier_roster(0)[2]
        && r[3] == tier_roster(0)[3]);
    assert(r[4] == tier_roster(1)[0] && r[5] == tier_roster(1)[1]);
    assert(r[6] == tier_roster(2)[0] && r[7] == tier_roster(2)[1] && r[8] == tier_roster(2)[2]
        && r[9] == tier_roster(2)[3] && r[10] == tier_roster(2)[4]);
    assert(r[11] == tier_roster(2)[5] && r[12] == tier_roster(2)[6] && r[13] == tier_roster(2)[7]
        && r[14] == tier_roster(2)[8] && r[15] == tier_roster(2)[9]);
}

} // verus!
