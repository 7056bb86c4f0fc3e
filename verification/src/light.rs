//! The device state that travels over the status endpoint: a full snapshot
//! of every addressable light. The device accepts and returns only the
//! whole structure; there are no partial updates on the wire.

use vstd::prelude::*;

verus! {

/// One independently controllable light element. `on` is the device's
/// boolean-as-0/1 power flag, `brightness` a percentage, and `temperature`
/// the device's native color-temperature code.
#[derive(Clone, Copy, Debug, PartialEq, Eq, Structural)]
pub struct Light {
    pub on: u8,
    pub brightness: u8,
    pub temperature: u16,
}

impl Light {
    /// Field ranges the device API promises: the power flag is 0 or 1, the
    /// brightness a percentage, the temperature within the code range.
    pub open spec fn wf(self) -> bool {
        &&& self.on <= 1
        &&& self.brightness <= 100
        &&& crate::codes::MIN_TEMPERATURE_CODE <= self.temperature
            <= crate::codes::MAX_TEMPERATURE_CODE
    }
}

/// Full, authoritative device state. `lights.len() == number_of_lights` is
/// assumed of device payloads, never checked.
#[derive(Debug)]
pub struct Status {
    pub number_of_lights: i64,
    pub lights: Vec<Light>,
}

/// Mathematical value of a [`Status`]: the light count beside the ordered
/// sequence of lights.
pub struct StatusView {
    pub number_of_lights: int,
    pub lights: Seq<Light>,
}

impl View for Status {
    type V = StatusView;

    open spec fn view(&self) -> StatusView {
        StatusView { number_of_lights: self.number_of_lights as int, lights: self.lights@ }
    }
}

impl Status {
    /// Every light in the snapshot satisfies the device's field ranges.
    pub open spec fn wf(self) -> bool {
        forall|i: int| 0 <= i < self@.lights.len() ==> self@.lights[i].wf()
    }
}

impl Default for Light {
    /// The all-zero placeholder the device model starts from.
    fn default() -> (r: Light)
        ensures
            r.on == 0,
            r.brightness == 0,
            r.temperature == 0,
    {
        Light { on: 0, brightness: 0, temperature: 0 }
    }
}

impl Default for Status {
    /// The empty snapshot a cache holds before the first fetch.
    fn default() -> (r: Status)
        ensures
            r@.number_of_lights == 0,
            r@.lights.len() == 0,
    {
        Status { number_of_lights: 0, lights: Vec::new() }
    }
}

impl Clone for Status {
    fn clone(&self) -> (r: Status)
        ensures
            r@ == self@,
    {
        let mut lights: Vec<Light> = Vec::new();
        let mut i: usize = 0;
        while i < self.lights.len()
            invariant
                i <= self.lights.len(),
                lights@ == self.lights@.subrange(0, i as int),
            decreases self.lights.len() - i,
        {
            lights.push(self.lights[i]);
            i = i + 1;
            proof {
                assert(lights@ =~= self.lights@.subrange(0, i as int));
            }
        }
        proof {
            assert(lights@ =~= self.lights@);
        }
        let r = Status { number_of_lights: self.number_of_lights, lights };
        proof {
            assert(r@ =~= self@) by {
                assert(r@.lights =~= self@.lights);
            }
        }
        r
    }
}

impl PartialEq for Status {
    fn eq(&self, other: &Status) -> (r: bool)
        ensures
            r == (self@ == other@),
    {
        if self.number_of_lights != other.number_of_lights {
            proof {
                assert(self@ != other@) by {
                    assert(self@.number_of_lights != other@.number_of_lights);
                }
            }
            return false;
        }
        if self.lights.len() != other.lights.len() {
            proof {
                assert(self@.lights.len() != other@.lights.len());
            }
            return false;
        }
        let mut i: usize = 0;
        while i < self.lights.len()
            invariant
                i <= self.lights.len(),
                self.lights.len() == other.lights.len(),
                self.number_of_lights == other.number_of_lights,
                forall|j: int| 0 <= j < i ==> self.lights@[j] == other.lights@[j],
            decreases self.lights.len() - i,
        {
            if self.lights[i] != other.lights[i] {
                proof {
                    assert(self@.lights[i as int] != other@.lights[i as int]);
                }
                return false;
            }
            i = i + 1;
        }
        proof {
            assert(self@.lights =~= other@.lights);
            assert(self@ =~= other@);
        }
        true
    }
}

impl vstd::std_specs::cmp::PartialEqSpecImpl for Status {
    open spec fn obeys_eq_spec() -> bool {
        true
    }

    open spec fn eq_spec(&self, other: &Status) -> bool {
        self@ == other@
    }
}

} // verus!
