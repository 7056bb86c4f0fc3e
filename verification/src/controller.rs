//! The controller model: the cached device state, the read-modify-write
//! command protocol, and the background-refresh rule.
//!
//! Every mutation follows the same transactional cycle: snapshot the cache,
//! build the full replacement body, push it to the device, and only commit
//! the body to the cache once the device has confirmed it. The push itself
//! is I/O and happens outside the library; [`KeyLight::apply_push_result`]
//! takes its outcome and performs (or refuses) the commit, so the cache can
//! only ever hold a device-confirmed value.

use vstd::prelude::*;

use crate::codes::{
    brightness_of, clamp_brightness, relative_brightness, relative_brightness_of,
    temperature_code, temperature_code_of,
};
use crate::light::{Light, Status};

verus! {

/// Port the device's HTTP API listens on when none was discovered.
pub const DEFAULT_PORT: u16 = 9123;

/// Interval, in seconds, between background cache refreshes.
pub const POLL_INTERVAL_SECS: u64 = 5;

/// Sum of the brightness values of a sequence of lights.
pub open spec fn brightness_sum(lights: Seq<Light>) -> int
    decreases lights.len(),
{
    if lights.len() == 0 {
        0
    } else {
        brightness_sum(lights.drop_last()) + lights.last().brightness
    }
}

/// A controller bound to one device: the name and address it was created
/// with, the mode fixed for its lifetime, and the last device-confirmed
/// state.
#[derive(Debug)]
pub struct KeyLight {
    name: String,
    addr: crate::net::DeviceAddress,
    poll: bool,
    status: Status,
}

impl KeyLight {
    /// The identifier captured at construction time.
    pub closed spec fn spec_name(self) -> Seq<char> {
        self.name@
    }

    /// The device address the controller is bound to.
    pub closed spec fn address(self) -> crate::net::DeviceAddress {
        self.addr
    }

    /// Whether a background task refreshes the cache.
    pub closed spec fn polled(self) -> bool {
        self.poll
    }

    /// The cached snapshot: the last state the device confirmed.
    pub closed spec fn cache(self) -> Status {
        self.status
    }

    /// Bind a controller to a device. `initial` is the snapshot the initial
    /// synchronous fetch returned; construction without a reachable device
    /// is refused by the caller before this point.
    pub fn create(
        name: String,
        addr: crate::net::DeviceAddress,
        poll: bool,
        initial: Status,
    ) -> (k: KeyLight)
        ensures
            k.spec_name() == name@,
            k.address() == addr,
            k.polled() == poll,
            k.cache() == initial,
    {
        KeyLight { name, addr, poll, status: initial }
    }

    /// The name captured at discovery or construction time; never
    /// re-validated against the live device.
    pub fn name(&self) -> (r: String)
        ensures
            r@ == self.spec_name(),
    {
        self.name.clone()
    }

    /// The cached snapshot, without any network traffic. This is the whole
    /// of `get` in polled mode; in unpolled mode the caller fetches from the
    /// device instead.
    pub fn get(&self) -> (r: Status)
        requires
            self.polled(),
        ensures
            r@ == self.cache()@,
    {
        self.status.clone()
    }

    /// Background refresh tick: a fetched snapshot overwrites the cache, a
    /// failed fetch (`None`) leaves the controller exactly as it was.
    /// Refresh failures are invisible to callers by design.
    pub fn refresh(&mut self, fetched: Option<Status>)
        ensures
            fetched matches Some(s) ==> final(self).cache() == s,
            fetched is None ==> *final(self) == *old(self),
            final(self).spec_name() == old(self).spec_name(),
            final(self).address() == old(self).address(),
            final(self).polled() == old(self).polled(),
    {
        match fetched {
            Some(s) => {
                self.status = s;
            },
            None => {},
        }
    }

    /// Commit step of the transactional cycle. A confirmed push replaces
    /// the cache with the body the device accepted; a failed push leaves
    /// the controller untouched, so the cache never holds a value the
    /// device did not confirm.
    pub fn apply_push_result(&mut self, body: Status, push_ok: bool)
        ensures
            push_ok ==> final(self).cache() == body,
            !push_ok ==> *final(self) == *old(self),
            final(self).spec_name() == old(self).spec_name(),
            final(self).address() == old(self).address(),
            final(self).polled() == old(self).polled(),
    {
        if push_ok {
            self.status = body;
        }
    }

    /// Replacement body for a power command: every light's `on` flag set to
    /// the requested state, everything else kept from the cache.
    pub fn set_power(&self, power: bool) -> (body: Status)
        ensures
            body@.number_of_lights == self.cache()@.number_of_lights,
            body@.lights.len() == self.cache()@.lights.len(),
            self.cache().wf() ==> body.wf(),
            forall|i: int|
                0 <= i < body@.lights.len() ==> body@.lights[i] == (Light {
                    on: if power {
                        1u8
                    } else {
                        0u8
                    },
                    ..self.cache()@.lights[i]
                }),
    {
        let on: u8 = if power {
            1
        } else {
            0
        };
        let mut lights: Vec<Light> = Vec::new();
        let mut i: usize = 0;
        while i < self.status.lights.len()
            invariant
                i <= self.status.lights.len(),
                lights@.len() == i,
                forall|j: int|
                    0 <= j < i ==> lights@[j] == (Light {
                        on: if power {
                            1u8
                        } else {
                            0u8
                        },
                        ..self.status.lights@[j]
                    }),
                on == if power {
                    1u8
                } else {
                    0u8
                },
            decreases self.status.lights.len() - i,
        {
            let cur = self.status.lights[i];
            lights.push(Light { on, brightness: cur.brightness, temperature: cur.temperature });
            i = i + 1;
        }
        Status { number_of_lights: self.status.number_of_lights, lights }
    }

    /// Replacement body for an absolute brightness command: every light's
    /// brightness set to the clamped percentage, everything else kept.
    pub fn set_brightness(&self, brightness: u8) -> (body: Status)
        ensures
            body@.number_of_lights == self.cache()@.number_of_lights,
            body@.lights.len() == self.cache()@.lights.len(),
            self.cache().wf() ==> body.wf(),
            forall|i: int|
                0 <= i < body@.lights.len() ==> body@.lights[i] == (Light {
                    brightness: brightness_of(brightness as int) as u8,
                    ..self.cache()@.lights[i]
                }),
    {
        let b = clamp_brightness(brightness);
        let mut lights: Vec<Light> = Vec::new();
        let mut i: usize = 0;
        while i < self.status.lights.len()
            invariant
                i <= self.status.lights.len(),
                lights@.len() == i,
                b as int == brightness_of(brightness as int),
                forall|j: int|
                    0 <= j < i ==> lights@[j] == (Light {
                        brightness: brightness_of(brightness as int) as u8,
                        ..self.status.lights@[j]
                    }),
            decreases self.status.lights.len() - i,
        {
            let cur = self.status.lights[i];
            lights.push(Light { on: cur.on, brightness: b, temperature: cur.temperature });
            i = i + 1;
        }
        Status { number_of_lights: self.status.number_of_lights, lights }
    }

    /// Replacement body for a color-temperature command: every light's
    /// temperature set to the device code for the clamped Kelvin value,
    /// everything else kept.
    pub fn set_temperature(&self, kelvin: u32) -> (body: Status)
        ensures
            body@.number_of_lights == self.cache()@.number_of_lights,
            body@.lights.len() == self.cache()@.lights.len(),
            self.cache().wf() ==> body.wf(),
            forall|i: int|
                0 <= i < body@.lights.len() ==> body@.lights[i] == (Light {
                    temperature: temperature_code_of(kelvin as int) as u16,
                    ..self.cache()@.lights[i]
                }),
    {
        let code = temperature_code(kelvin);
        let mut lights: Vec<Light> = Vec::new();
        let mut i: usize = 0;
        while i < self.status.lights.len()
            invariant
                i <= self.status.lights.len(),
                lights@.len() == i,
                code as int == temperature_code_of(kelvin as int),
                forall|j: int|
                    0 <= j < i ==> lights@[j] == (Light {
                        temperature: temperature_code_of(kelvin as int) as u16,
                        ..self.status.lights@[j]
                    }),
            decreases self.status.lights.len() - i,
        {
            let cur = self.status.lights[i];
            lights.push(Light { on: cur.on, brightness: cur.brightness, temperature: code });
            i = i + 1;
        }
        Status { number_of_lights: self.status.number_of_lights, lights }
    }

    /// Replacement body for a relative brightness command: every light's
    /// brightness shifted by `delta_points` percentage points (the delta
    /// clamped symmetrically to [-100, 100], the result to [0, 100]),
    /// everything else kept. Also returns the sum of the new brightness
    /// values; the caller's feedback is their arithmetic mean, which the
    /// bound on the sum keeps within [0, 100].
    pub fn set_relative_brightness(&self, delta_points: i32) -> (r: (Status, u128))
        ensures
            r.0@.number_of_lights == self.cache()@.number_of_lights,
            r.0@.lights.len() == self.cache()@.lights.len(),
            self.cache().wf() ==> r.0.wf(),
            forall|i: int|
                0 <= i < r.0@.lights.len() ==> r.0@.lights[i] == (Light {
                    brightness: relative_brightness_of(
                        self.cache()@.lights[i].brightness as int,
                        delta_points as int,
                    ) as u8,
                    ..self.cache()@.lights[i]
                }),
            r.1 == brightness_sum(r.0@.lights),
            0 <= r.1 <= 100 * r.0@.lights.len(),
    {
        let mut lights: Vec<Light> = Vec::new();
        let mut sum: u128 = 0;
        let mut i: usize = 0;
        proof {
            assert(lights@ =~= Seq::<Light>::empty());
        }
        while i < self.status.lights.len()
            invariant
                i <= self.status.lights.len(),
                lights@.len() == i,
                forall|j: int|
                    0 <= j < i ==> lights@[j] == (Light {
                        brightness: relative_brightness_of(
                            self.status.lights@[j].brightness as int,
                            delta_points as int,
                        ) as u8,
                        ..self.status.lights@[j]
                    }),
                sum == brightness_sum(lights@),
                sum <= 100 * i,
            decreases self.status.lights.len() - i,
        {
            let cur = self.status.lights[i];
            let nb = relative_brightness(cur.brightness, delta_points);
            let ghost prev = lights@;
            lights.push(Light { on: cur.on, brightness: nb, temperature: cur.temperature });
            proof {
                assert(lights@.drop_last() =~= prev);
            }
            sum = sum + nb as u128;
            i = i + 1;
        }
        let body = Status { number_of_lights: self.status.number_of_lights, lights };
        (body, sum)
    }
}

} // verus!
