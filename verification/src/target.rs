use vstd::prelude::*;

verus! {

/// One of the four fixed physical light zones of the device.
#[derive(Clone, Copy, PartialEq, Eq, Hash, Structural, Debug)]
pub enum Target {
    LeftPrimary,
    LeftSecondary,
    RightPrimary,
    RightSecondary,
}

/// String equality over the character views.
fn str_eq(a: &str, b: &str) -> (r: bool)
    ensures
        r == (a@ == b@),
{
    let sa: String = a.to_owned();
    let sb: String = b.to_owned();
    sa == sb
}

impl Target {
    /// The device address byte of this zone.
    pub open spec fn spec_addr(&self) -> u8 {
        match self {
            Target::LeftPrimary => 0x00,
            Target::LeftSecondary => 0x02,
            Target::RightPrimary => 0x01,
            Target::RightSecondary => 0x03,
        }
    }

    /// The device address byte of this zone.
    #[verifier::when_used_as_spec(spec_addr)]
    pub fn addr(&self) -> (a: u8)
        ensures
            a == self.spec_addr(),
    {
        match self {
            Target::LeftPrimary => 0x00,
            Target::LeftSecondary => 0x02,
            Target::RightPrimary => 0x01,
            Target::RightSecondary => 0x03,
        }
    }

    /// Every zone, in declaration order.
    pub open spec fn spec_all() -> Seq<Target> {
        seq![Target::LeftPrimary, Target::LeftSecondary, Target::RightPrimary, Target::RightSecondary]
    }

    /// Every zone, in declaration order.
    pub fn all() -> (r: [Target; 4])
        ensures
            r@ == Target::spec_all(),
    {
        let r = [Target::LeftPrimary, Target::LeftSecondary, Target::RightPrimary, Target::RightSecondary];
        proof {
            assert(r@ =~= Target::spec_all());
        }
        r
    }

    /// The zones a zone name denotes: individual spellings, side and
    /// position aliases, `"all"`, and the empty sequence for anything else.
    pub open spec fn lookup_spec(name: Seq<char>) -> Seq<Target> {
        if name == "leftfront"@ || name == "left-front"@ || name == "left_front"@
            || name == "leftprimary"@ || name == "left-primary"@ || name == "left_primary"@ {
            seq![Target::LeftPrimary]
        } else if name == "leftback"@ || name == "left-back"@ || name == "left_back"@
            || name == "leftsecondary"@ || name == "left-secondary"@ || name == "left_secondary"@ {
            seq![Target::LeftSecondary]
        } else if name == "rightfront"@ || name == "right-front"@ || name == "right_front"@
            || name == "rightprimary"@ || name == "right-primary"@ || name == "right_primary"@ {
            seq![Target::RightPrimary]
        } else if name == "rightback"@ || name == "right-back"@ || name == "right_back"@
            || name == "rightsecondary"@ || name == "right-secondary"@ || name == "right_secondary"@ {
            seq![Target::RightSecondary]
        } else if name == "left"@ {
            seq![Target::LeftPrimary, Target::LeftSecondary]
        } else if name == "right"@ {
            seq![Target::RightPrimary, Target::RightSecondary]
        } else if name == "front"@ || name == "primary"@ {
            seq![Target::LeftPrimary, Target::RightPrimary]
        } else if name == "back"@ || name == "secondary"@ {
            seq![Target::LeftSecondary, Target::RightSecondary]
        } else if name == "all"@ {
            Target::spec_all()
        } else {
            Seq::empty()
        }
    }

    /// Resolve a zone name, case-sensitively, against the fixed alias table.
    /// An unrecognized name resolves to no zone at all rather than an error.
    pub fn lookup(name: &str) -> (r: Vec<Target>)
        ensures
            r@ == Target::lookup_spec(name@),
    {
        let mut r: Vec<Target> = Vec::new();
        if str_eq(name, "leftfront") || str_eq(name, "left-front") || str_eq(name, "left_front")
            || str_eq(name, "leftprimary") || str_eq(name, "left-primary") || str_eq(name, "left_primary") {
            r.push(Target::LeftPrimary);
        } else if str_eq(name, "leftback") || str_eq(name, "left-back") || str_eq(name, "left_back")
            || str_eq(name, "leftsecondary") || str_eq(name, "left-secondary") || str_eq(name, "left_secondary") {
            r.push(Target::LeftSecondary);
        } else if str_eq(name, "rightfront") || str_eq(name, "right-front") || str_eq(name, "right_front")
            || str_eq(name, "rightprimary") || str_eq(name, "right-primary") || str_eq(name, "right_primary") {
            r.push(Target::RightPrimary);
        } else if str_eq(name, "rightback") || str_eq(name, "right-back") || str_eq(name, "right_back")
            || str_eq(name, "rightsecondary") || str_eq(name, "right-secondary") || str_eq(name, "right_secondary") {
            r.push(Target::RightSecondary);
        } else if str_eq(name, "left") {
            r.push(Target::LeftPrimary);
            r.push(Target::LeftSecondary);
        } else if str_eq(name, "right") {
            r.push(Target::RightPrimary);
            r.push(Target::RightSecondary);
        } else if str_eq(name, "front") || str_eq(name, "primary") {
            r.push(Target::LeftPrimary);
            r.push(Target::RightPrimary);
        } else if str_eq(name, "back") || str_eq(name, "secondary") {
            r.push(Target::LeftSecondary);
            r.push(Target::RightSecondary);
        } else if str_eq(name, "all") {
            r.push(Target::LeftPrimary);
            r.push(Target::LeftSecondary);
            r.push(Target::RightPrimary);
            r.push(Target::RightSecondary);
        }
        proof {
            assert(r@ =~= Target::lookup_spec(name@));
        }
        r
    }

    /// Whatever the name, only the four fixed zones can come back.
    pub proof fn lemma_lookup_in_zones(name: Seq<char>)
        ensures
            forall|i: int|
                0 <= i < Target::lookup_spec(name).len() ==> Target::spec_all().contains(
                    #[trigger] Target::lookup_spec(name)[i],
                ),
    {
        assert forall|i: int| 0 <= i < Target::lookup_spec(name).len() implies Target::spec_all().contains(
            #[trigger] Target::lookup_spec(name)[i],
        ) by {
            let t = Target::lookup_spec(name)[i];
            assert(Target::spec_all()[t.zone_index()] == t);
        }
    }

    /// Whether `v` already holds `t`.
    fn contains_target(v: &Vec<Target>, t: Target) -> (b: bool)
        ensures
            b == v@.contains(t),
    {
        let mut k: usize = 0;
        while k < v.len()
            invariant
                k <= v@.len(),
                forall|j: int| 0 <= j < k ==> v@[j] != t,
            decreases v@.len() - k,
        {
            if v[k] == t {
                proof {
                    assert(v@.contains(t));
                }
                return true;
            }
            k = k + 1;
        }
        false
    }

    /// The union of the zones several names denote, deduplicated, in order
    /// of first appearance.
    pub fn resolve_targets(names: &Vec<String>) -> (r: Vec<Target>)
        ensures
            forall|t: Target|
                #![trigger r@.contains(t)]
                r@.contains(t) <==> exists|i: int|
                    0 <= i < names@.len() && Target::lookup_spec(names@[i]@).contains(t),
            forall|j1: int, j2: int| 0 <= j1 < j2 < r@.len() ==> r@[j1] != r@[j2],
    {
        let mut r: Vec<Target> = Vec::new();
        let mut i: usize = 0;
        while i < names.len()
            invariant
                i <= names@.len(),
                forall|t: Target|
                    #![trigger r@.contains(t)]
                    r@.contains(t) <==> exists|i2: int|
                        0 <= i2 < i && Target::lookup_spec(names@[i2]@).contains(t),
                forall|j1: int, j2: int| 0 <= j1 < j2 < r@.len() ==> r@[j1] != r@[j2],
            decreases names@.len() - i,
        {
            let ts = Target::lookup(names[i].as_str());
            let mut k: usize = 0;
            while k < ts.len()
                invariant
                    k <= ts@.len(),
                    i < names@.len(),
                    ts@ == Target::lookup_spec(names@[i as int]@),
                    forall|t: Target|
                        #![trigger r@.contains(t)]
                        r@.contains(t) <==> ((exists|i2: int|
                            0 <= i2 < i && Target::lookup_spec(names@[i2]@).contains(t)) || (
                        exists|k2: int| 0 <= k2 < k && ts@[k2] == t)),
                    forall|j1: int, j2: int| 0 <= j1 < j2 < r@.len() ==> r@[j1] != r@[j2],
                decreases ts@.len() - k,
            {
                let t = ts[k];
                let already = Self::contains_target(&r, t);
                let ghost r_old = r@;
                if !already {
                    r.push(t);
                }
                proof {
                    assert forall|t2: Target| #![trigger r@.contains(t2)] r@.contains(t2) <==> ((
                    exists|i2: int| 0 <= i2 < i && Target::lookup_spec(names@[i2]@).contains(t2))
                        || (exists|k2: int| 0 <= k2 < k + 1 && ts@[k2] == t2)) by {
                        if already {
                            assert(r@ == r_old);
                            if r@.contains(t2) {
                            } else {
                                if ts@[k as int] == t2 {
                                    assert(r_old.contains(t));
                                }
                            }
                        } else {
                            assert(r@ == r_old.push(t));
                            if r@.contains(t2) {
                                let w = choose|w: int| 0 <= w < r@.len() && r@[w] == t2;
                                if w < r_old.len() {
                                    assert(r_old[w] == t2);
                                    assert(r_old.contains(t2));
                                } else {
                                    assert(t2 == t);
                                    assert(ts@[k as int] == t2);
                                }
                            } else {
                                if r_old.contains(t2) {
                                    let w = choose|w: int|
                                        0 <= w < r_old.len() && r_old[w] == t2;
                                    assert(r@[w] == t2);
                                    assert(r@.contains(t2));
                                }
                                if ts@[k as int] == t2 {
                                    assert(r@[r@.len() - 1] == t2);
                                    assert(r@.contains(t2));
                                }
                            }
                        }
                    }
                    assert forall|j1: int, j2: int| 0 <= j1 < j2 < r@.len() implies r@[j1]
                        != r@[j2] by {
                        if !already && j2 == r@.len() - 1 {
                            assert(r@[j1] == r_old[j1]);
                            assert(r_old.contains(r_old[j1]));
                        }
                    }
                }
                k = k + 1;
            }
            proof {
                assert forall|t: Target| #![trigger r@.contains(t)] r@.contains(t) <==> exists|
                    i2: int,
                |
                    0 <= i2 < i + 1 && Target::lookup_spec(names@[i2]@).contains(t) by {
                    if r@.contains(t) {
                        if exists|k2: int| 0 <= k2 < ts@.len() && ts@[k2] == t {
                            assert(ts@.contains(t));
                            assert(Target::lookup_spec(names@[i as int]@).contains(t));
                        }
                    } else {
                        if exists|i2: int|
                            0 <= i2 < i + 1 && Target::lookup_spec(names@[i2]@).contains(t) {
                            let i2 = choose|i2: int|
                                0 <= i2 < i + 1 && Target::lookup_spec(names@[i2]@).contains(t);
                            if i2 == i {
                                let k2 = choose|k2: int| 0 <= k2 < ts@.len() && ts@[k2] == t;
                                assert(0 <= k2 < ts@.len() && ts@[k2] == t);
                            }
                        }
                    }
                }
            }
            i = i + 1;
        }
        r
    }

    /// A fixed position of this zone in `spec_all`.
    pub open spec fn zone_index(self) -> int {
        match self {
            Target::LeftPrimary => 0,
            Target::LeftSecondary => 1,
            Target::RightPrimary => 2,
            Target::RightSecondary => 3,
        }
    }
}

} // verus!
