use crate::color::Color;
use crate::target::Target;
use vstd::prelude::*;

verus! {

/// Parameters of a solid-color command.
#[derive(Clone, Copy, PartialEq, Eq, Structural, Debug)]
pub struct SetColorSolidCommandData {
    pub target: Target,
    pub color: Color,
}

/// Parameters of a color-cycle command.
#[derive(Clone, Copy, PartialEq, Eq, Structural, Debug)]
pub struct SetColorCycleCommandData {
    pub target: Target,
    pub rate: u16,
    pub brightness: u8,
}

/// Parameters of a breathing-color command.
#[derive(Clone, Copy, PartialEq, Eq, Structural, Debug)]
pub struct SetColorBreatheCommandData {
    pub target: Target,
    pub color: Color,
    pub rate: u16,
    pub brightness: u8,
}

/// Parameters of a lights-off command.
#[derive(Clone, Copy, PartialEq, Eq, Structural, Debug)]
pub struct SetColorOffCommandData {
    pub target: Target,
}

/// One lighting command, bound to exactly one zone. The builders clamp
/// `rate` to `[100, 65535]` and `brightness` to `[1, 100]`, so a constructed
/// value never carries an out-of-range parameter.
#[derive(Clone, Copy, PartialEq, Eq, Structural, Debug)]
pub enum Command {
    SetColorSolid(SetColorSolidCommandData),
    SetColorCycle(SetColorCycleCommandData),
    SetColorBreathe(SetColorBreatheCommandData),
    SetColorOff(SetColorOffCommandData),
}

/// Clamping to an inclusive range, as the builders state it.
pub open spec fn clamp_spec(x: int, lo: int, hi: int) -> int {
    if x < lo {
        lo
    } else if x > hi {
        hi
    } else {
        x
    }
}

/// Relies on num::clamp at u16: returns min where input < min, max where
/// input > max, and input otherwise. `requires` rules out the one case
/// (min > max) in which its debug assertion fires.
#[verifier::external_body]
fn clamp_u16(input: u16, min: u16, max: u16) -> (r: u16)
    requires
        min <= max,
    ensures
        r == clamp_spec(input as int, min as int, max as int),
{
    num::clamp(input, min, max)
}

/// Relies on num::clamp at u8: returns min where input < min, max where
/// input > max, and input otherwise. `requires` rules out the one case
/// (min > max) in which its debug assertion fires.
#[verifier::external_body]
fn clamp_u8(input: u8, min: u8, max: u8) -> (r: u8)
    requires
        min <= max,
    ensures
        r == clamp_spec(input as int, min as int, max as int),
{
    num::clamp(input, min, max)
}

impl Command {
    /// A solid-color command for one zone.
    pub fn new_color_solid(target: Target, color: Color) -> (c: Command)
        ensures
            c == Command::SetColorSolid((SetColorSolidCommandData { target, color })),
    {
        Self::SetColorSolid(SetColorSolidCommandData { target, color })
    }

    /// A color-cycle command; rate and brightness are clamped to their
    /// valid ranges.
    pub fn new_color_cycle(target: Target, rate: u16, brightness: u8) -> (c: Command)
        ensures
            c == Command::SetColorCycle(
                (SetColorCycleCommandData {
                    target,
                    rate: clamp_spec(rate as int, 100, 65535) as u16,
                    brightness: clamp_spec(brightness as int, 1, 100) as u8,
                }),
            ),
    {
        Self::SetColorCycle(
            SetColorCycleCommandData {
                target,
                rate: clamp_u16(rate, 100, 65535),
                brightness: clamp_u8(brightness, 1, 100),
            },
        )
    }

    /// A breathing-color command; rate and brightness are clamped to their
    /// valid ranges.
    pub fn new_color_breathe(target: Target, color: Color, rate: u16, brightness: u8) -> (c:
        Command)
        ensures
            c == Command::SetColorBreathe(
                (SetColorBreatheCommandData {
                    target,
                    color,
                    rate: clamp_spec(rate as int, 100, 65535) as u16,
                    brightness: clamp_spec(brightness as int, 1, 100) as u8,
                }),
            ),
    {
        Self::SetColorBreathe(
            SetColorBreatheCommandData {
                target,
                color,
                rate: clamp_u16(rate, 100, 65535),
                brightness: clamp_u8(brightness, 1, 100),
            },
        )
    }

    /// A lights-off command for one zone.
    pub fn new_color_off(target: Target) -> (c: Command)
        ensures
            c == Command::SetColorOff((SetColorOffCommandData { target })),
    {
        Self::SetColorOff(SetColorOffCommandData { target })
    }

    /// The zone this command is bound to.
    pub open spec fn spec_target(&self) -> Target {
        match self {
            Command::SetColorSolid(data) => data.target,
            Command::SetColorCycle(data) => data.target,
            Command::SetColorBreathe(data) => data.target,
            Command::SetColorOff(data) => data.target,
        }
    }

    /// The zone this command is bound to.
    #[verifier::when_used_as_spec(spec_target)]
    pub fn target(&self) -> (t: Target)
        ensures
            t == self.spec_target(),
    {
        match self {
            Command::SetColorSolid(data) => data.target,
            Command::SetColorCycle(data) => data.target,
            Command::SetColorBreathe(data) => data.target,
            Command::SetColorOff(data) => data.target,
        }
    }

    /// The device's one-byte mode discriminator. Off and Solid share a code:
    /// the device tells them apart only by the zeroed color bytes.
    pub open spec fn spec_mode_value(&self) -> u8 {
        match self {
            Command::SetColorSolid(_) => 0x01,
            Command::SetColorCycle(_) => 0x02,
            Command::SetColorBreathe(_) => 0x04,
            Command::SetColorOff(_) => 0x01,
        }
    }

    /// The device's one-byte mode discriminator.
    #[verifier::when_used_as_spec(spec_mode_value)]
    pub fn mode_value(&self) -> (m: u8)
        ensures
            m == self.spec_mode_value(),
    {
        match self {
            Command::SetColorSolid(_) => 0x01,
            Command::SetColorCycle(_) => 0x02,
            Command::SetColorBreathe(_) => 0x04,
            Command::SetColorOff(_) => 0x01,
        }
    }

    /// The 10-byte mode-specific payload: zone address, mode code, then a
    /// per-variant layout. The rate goes out big-endian over two bytes.
    pub open spec fn spec_payload(&self) -> Seq<u8> {
        match self {
            Command::SetColorSolid(d) => seq![
                d.target.spec_addr(),
                0x01u8,
                d.color.r,
                d.color.g,
                d.color.b,
                0u8,
                0u8,
                0u8,
                0u8,
                0u8,
            ],
            Command::SetColorCycle(d) => seq![
                d.target.spec_addr(),
                0x02u8,
                0u8,
                0u8,
                0u8,
                0u8,
                0u8,
                (d.rate / 256) as u8,
                (d.rate % 256) as u8,
                d.brightness,
            ],
            Command::SetColorBreathe(d) => seq![
                d.target.spec_addr(),
                0x04u8,
                d.color.r,
                d.color.g,
                d.color.b,
                (d.rate / 256) as u8,
                (d.rate % 256) as u8,
                0u8,
                d.brightness,
                0u8,
            ],
            Command::SetColorOff(d) => seq![
                d.target.spec_addr(),
                0x01u8,
                0u8,
                0u8,
                0u8,
                0u8,
                0u8,
                0u8,
                0u8,
                0u8,
            ],
        }
    }

    /// The full 20-byte control-transfer frame: a fixed 4-byte prefix, the
    /// payload, and six zero bytes.
    pub open spec fn spec_frame(&self) -> Seq<u8> {
        seq![0x11u8, 0xffu8, 0x04u8, 0x3au8] + self.spec_payload() + seq![
            0u8,
            0u8,
            0u8,
            0u8,
            0u8,
            0u8,
        ]
    }

    /// Build the 10-byte payload for this command.
    pub fn payload(&self) -> (v: Vec<u8>)
        ensures
            v@ == self.spec_payload(),
            v@.len() == 10,
    {
        let mut v: Vec<u8> = Vec::new();
        match self {
            Command::SetColorSolid(d) => {
                v.push(d.target.addr());
                v.push(0x01);
                v.push(d.color.r);
                v.push(d.color.g);
                v.push(d.color.b);
                v.push(0);
                v.push(0);
                v.push(0);
                v.push(0);
                v.push(0);
            },
            Command::SetColorCycle(d) => {
                v.push(d.target.addr());
                v.push(0x02);
                v.push(0);
                v.push(0);
                v.push(0);
                v.push(0);
                v.push(0);
                v.push((d.rate / 256) as u8);
                v.push((d.rate % 256) as u8);
                v.push(d.brightness);
            },
            Command::SetColorBreathe(d) => {
                v.push(d.target.addr());
                v.push(0x04);
                v.push(d.color.r);
                v.push(d.color.g);
                v.push(d.color.b);
                v.push((d.rate / 256) as u8);
                v.push((d.rate % 256) as u8);
                v.push(0);
                v.push(d.brightness);
                v.push(0);
            },
            Command::SetColorOff(d) => {
                v.push(d.target.addr());
                v.push(0x01);
                v.push(0);
                v.push(0);
                v.push(0);
                v.push(0);
                v.push(0);
                v.push(0);
                v.push(0);
                v.push(0);
            },
        }
        proof {
            assert(v@ =~= self.spec_payload());
        }
        v
    }

    /// Encode this command as the 20-byte frame the device expects.
    pub fn encode(&self) -> (f: Vec<u8>)
        ensures
            f@ == self.spec_frame(),
            f@.len() == 20,
    {
        let mut f: Vec<u8> = Vec::new();
        f.push(0x11);
        f.push(0xff);
        f.push(0x04);
        f.push(0x3a);
        let mut body = self.payload();
        f.append(&mut body);
        f.push(0);
        f.push(0);
        f.push(0);
        f.push(0);
        f.push(0);
        f.push(0);
        proof {
            assert(f@ =~= self.spec_frame());
        }
        f
    }

    /// The last command in `s` bound to zone `z`, if any.
    pub open spec fn last_for(s: Seq<Command>, z: Target) -> Option<Command>
        decreases s.len(),
    {
        if s.len() == 0 {
            Option::None
        } else if s.last().spec_target() == z {
            Option::Some(s.last())
        } else {
            Self::last_for(s.drop_last(), z)
        }
    }

    /// A sequence of zero or one commands out of an optional one.
    pub open spec fn opt_seq(o: Option<Command>) -> Seq<Command> {
        match o {
            Option::None => Seq::empty(),
            Option::Some(c) => seq![c],
        }
    }

    /// What `compress` emits: the surviving command of each zone, in the
    /// fixed zone order. Absent zones contribute nothing.
    pub open spec fn compressed_spec(s: Seq<Command>) -> Seq<Command> {
        Self::opt_seq(Self::last_for(s, Target::LeftPrimary)) + Self::opt_seq(
            Self::last_for(s, Target::LeftSecondary),
        ) + Self::opt_seq(Self::last_for(s, Target::RightPrimary)) + Self::opt_seq(
            Self::last_for(s, Target::RightSecondary),
        )
    }

    /// The guarantee compression gives, independent of the order across
    /// zones: every emitted command is the last one of its zone, every zone
    /// present in the input gets an emitted command, and no zone gets two.
    pub open spec fn is_compression(input: Seq<Command>, out: Seq<Command>) -> bool {
        &&& forall|j: int|
            0 <= j < out.len() ==> Self::last_for(input, (#[trigger] out[j]).spec_target())
                == Option::Some(out[j])
        &&& forall|z: Target|
            #![trigger Self::last_for(input, z)]
            Self::last_for(input, z) is Some ==> exists|j: int|
                0 <= j < out.len() && (#[trigger] out[j]).spec_target() == z
        &&& forall|j1: int, j2: int|
            0 <= j1 < out.len() && 0 <= j2 < out.len() && (#[trigger] out[j1]).spec_target() == (
            #[trigger] out[j2]).spec_target() ==> j1 == j2
    }

    /// A surviving command is bound to the zone it survived for.
    pub proof fn lemma_last_for_target(s: Seq<Command>, z: Target)
        ensures
            Self::last_for(s, z) matches Some(c) ==> c.spec_target() == z,
        decreases s.len(),
    {
        if s.len() > 0 && s.last().spec_target() != z {
            Self::lemma_last_for_target(s.drop_last(), z);
        }
    }

    /// Last-write-wins, stated over input positions: a zone survives exactly
    /// when some input command is bound to it, and what survives is the
    /// command at the greatest such position.
    pub proof fn lemma_last_for_is_last(s: Seq<Command>, z: Target)
        ensures
            (Self::last_for(s, z) is Some) <==> exists|i: int|
                0 <= i < s.len() && (#[trigger] s[i]).spec_target() == z,
            Self::last_for(s, z) matches Some(c) ==> exists|i: int|
                {
                    &&& 0 <= i < s.len()
                    &&& #[trigger] s[i] == c
                    &&& s[i].spec_target() == z
                    &&& forall|k: int| i < k < s.len() ==> (#[trigger] s[k]).spec_target() != z
                },
        decreases s.len(),
    {
        if s.len() == 0 {
        } else if s.last().spec_target() == z {
            assert(s[s.len() - 1] == s.last());
            assert(s[s.len() - 1].spec_target() == z);
            assert forall|k: int| s.len() - 1 < k < s.len() implies (
            #[trigger] s[k]).spec_target() != z by {}
        } else {
            let sub = s.drop_last();
            Self::lemma_last_for_is_last(sub, z);
            assert(forall|i: int| 0 <= i < sub.len() ==> #[trigger] sub[i] == s[i]);
            if Self::last_for(s, z) is Some {
                let c = Self::last_for(sub, z)->Some_0;
                let i = choose|i: int|
                    {
                        &&& 0 <= i < sub.len()
                        &&& #[trigger] sub[i] == c
                        &&& sub[i].spec_target() == z
                        &&& forall|k: int|
                            i < k < sub.len() ==> (#[trigger] sub[k]).spec_target() != z
                    };
                assert(s[i] == c);
                assert forall|k: int| i < k < s.len() implies (#[trigger] s[k]).spec_target()
                    != z by {
                    if k < s.len() - 1 {
                        assert(sub[k].spec_target() != z);
                    }
                }
            }
            if exists|i: int| 0 <= i < s.len() && (#[trigger] s[i]).spec_target() == z {
                let i = choose|i: int| 0 <= i < s.len() && (#[trigger] s[i]).spec_target() == z;
                assert(i < s.len() - 1);
                assert(sub[i].spec_target() == z);
            }
        }
    }

    /// The deterministic projection `compressed_spec` meets the order-free
    /// compression guarantee.
    pub proof fn lemma_compressed_spec_is_compression(s: Seq<Command>)
        ensures
            Self::is_compression(s, Self::compressed_spec(s)),
    {
        let a = Self::opt_seq(Self::last_for(s, Target::LeftPrimary));
        let b = Self::opt_seq(Self::last_for(s, Target::LeftSecondary));
        let c = Self::opt_seq(Self::last_for(s, Target::RightPrimary));
        let d = Self::opt_seq(Self::last_for(s, Target::RightSecondary));
        let out = Self::compressed_spec(s);
        Self::lemma_last_for_target(s, Target::LeftPrimary);
        Self::lemma_last_for_target(s, Target::LeftSecondary);
        Self::lemma_last_for_target(s, Target::RightPrimary);
        Self::lemma_last_for_target(s, Target::RightSecondary);
        assert(out =~= a + b + c + d);
        assert forall|j: int| 0 <= j < out.len() implies Self::last_for(
            s,
            (#[trigger] out[j]).spec_target(),
        ) == Option::Some(out[j]) by {
            if j < a.len() {
                assert(out[j] == a[0]);
            } else if j < a.len() + b.len() {
                assert(out[j] == b[0]);
            } else if j < a.len() + b.len() + c.len() {
                assert(out[j] == c[0]);
            } else {
                assert(out[j] == d[0]);
            }
        }
        assert forall|z: Target|
            #![trigger Self::last_for(s, z)]
        Self::last_for(s, z) is Some implies exists|j: int|
            0 <= j < out.len() && (#[trigger] out[j]).spec_target() == z by {
            match z {
                Target::LeftPrimary => {
                    assert(out[0] == a[0]);
                    assert(out[0].spec_target() == z);
                },
                Target::LeftSecondary => {
                    assert(out[a.len() as int] == b[0]);
                    assert(out[a.len() as int].spec_target() == z);
                },
                Target::RightPrimary => {
                    assert(out[a.len() + b.len() as int] == c[0]);
                    assert(out[a.len() + b.len() as int].spec_target() == z);
                },
                Target::RightSecondary => {
                    assert(out[a.len() + b.len() + c.len() as int] == d[0]);
                    assert(out[a.len() + b.len() + c.len() as int].spec_target() == z);
                },
            }
        }
        assert forall|j1: int, j2: int|
            0 <= j1 < out.len() && 0 <= j2 < out.len() && (#[trigger] out[j1]).spec_target() == (
            #[trigger] out[j2]).spec_target() implies j1 == j2 by {
            assert(forall|j: int|
                0 <= j < a.len() ==> (#[trigger] out[j]).spec_target() == Target::LeftPrimary);
            assert(forall|j: int|
                a.len() <= j < a.len() + b.len() ==> (#[trigger] out[j]).spec_target()
                    == Target::LeftSecondary);
            assert(forall|j: int|
                a.len() + b.len() <= j < a.len() + b.len() + c.len() ==> (
                #[trigger] out[j]).spec_target() == Target::RightPrimary);
            assert(forall|j: int|
                a.len() + b.len() + c.len() <= j < out.len() ==> (
                #[trigger] out[j]).spec_target() == Target::RightSecondary);
        }
    }

    /// Collapse a list of commands to at most one per zone: for each zone
    /// appearing in the input, the last command bound to it survives; every
    /// earlier one for that zone is dropped, and absent zones emit nothing.
    pub fn compress(commands: &[Command]) -> (r: Vec<Command>)
        ensures
            r@ == Self::compressed_spec(commands@),
            Self::is_compression(commands@, r@),
    {
        let ghost s = commands@;
        let n = commands.len();
        let mut lp: Option<Command> = None;
        let mut ls: Option<Command> = None;
        let mut rp: Option<Command> = None;
        let mut rs: Option<Command> = None;
        let mut i: usize = 0;
        while i < n
            invariant
                n == s.len(),
                commands@ == s,
                i <= n,
                lp == Self::last_for(s.take(i as int), Target::LeftPrimary),
                ls == Self::last_for(s.take(i as int), Target::LeftSecondary),
                rp == Self::last_for(s.take(i as int), Target::RightPrimary),
                rs == Self::last_for(s.take(i as int), Target::RightSecondary),
            decreases n - i,
        {
            let c = commands[i];
            proof {
                assert(s.take(i as int + 1).drop_last() =~= s.take(i as int));
                assert(s.take(i as int + 1).last() == s[i as int]);
            }
            match c.target() {
                Target::LeftPrimary => {
                    lp = Some(c);
                },
                Target::LeftSecondary => {
                    ls = Some(c);
                },
                Target::RightPrimary => {
                    rp = Some(c);
                },
                Target::RightSecondary => {
                    rs = Some(c);
                },
            }
            i = i + 1;
        }
        proof {
            assert(s.take(n as int) =~= s);
        }
        let mut r: Vec<Command> = Vec::new();
        if let Some(c) = lp {
            r.push(c);
        }
        if let Some(c) = ls {
            r.push(c);
        }
        if let Some(c) = rp {
            r.push(c);
        }
        if let Some(c) = rs {
            r.push(c);
        }
        proof {
            assert(r@ =~= Self::compressed_spec(s));
            Self::lemma_compressed_spec_is_compression(s);
        }
        r
    }
}

} // verus!
