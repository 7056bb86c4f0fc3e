//! Selection logic of service discovery: which browse announcement answers
//! a lookup. The multicast engine itself runs outside the library and
//! feeds announcements in; the library decides, by exact name equality,
//! which one is delivered, and turns its address text into an address.

use vstd::prelude::*;

use crate::net::{ipv4_text, parse_ipv4, DeviceAddress};
use crate::ElgatoError;

verus! {

/// One announcement from the multicast browse: the advertised service
/// name, its resolved address text (as bytes), and its port.
pub struct Announcement {
    pub name: String,
    pub address: Vec<u8>,
    pub port: u16,
}

/// `i` points at the first announcement whose name equals the requested
/// name exactly.
pub open spec fn first_match_at(requested: Seq<char>, anns: Seq<Announcement>, i: int) -> bool {
    &&& 0 <= i < anns.len()
    &&& anns[i].name@ == requested
    &&& forall|j: int| 0 <= j < i ==> anns[j].name@ != requested
}

/// The decision the browse worker takes for one announcement: deliver it
/// exactly when its name equals the requested name.
pub fn announcement_matches(requested: &String, announced: &String) -> (r: bool)
    ensures
        r == (requested@ == announced@),
{
    requested.eq(announced)
}

/// Position of the first announcement whose name equals the requested name
/// exactly. Announcements with other names neither match nor end the
/// search.
pub fn first_match(requested: &String, announcements: &Vec<Announcement>) -> (r: Option<usize>)
    ensures
        r matches Some(i) ==> first_match_at(requested@, announcements@, i as int),
        r is None ==> forall|j: int|
            0 <= j < announcements@.len() ==> announcements@[j].name@ != requested@,
{
    let mut i: usize = 0;
    while i < announcements.len()
        invariant
            i <= announcements@.len(),
            forall|j: int| 0 <= j < i ==> announcements@[j].name@ != requested@,
        decreases announcements@.len() - i,
    {
        if announcement_matches(requested, &announcements[i].name) {
            return Some(i);
        }
        i = i + 1;
    }
    None
}

/// Outcome of a finished browse: the device address carried by the first
/// announcement matching the requested name. `DiscoverError` exactly when
/// no announcement matches; `IPError` when the matching announcement's
/// address text is not a canonical dotted quad.
pub fn resolve(requested: &String, announcements: &Vec<Announcement>) -> (r: Result<
    DeviceAddress,
    ElgatoError,
>)
    ensures
        r matches Ok(addr) ==> exists|i: int|
            #[trigger] first_match_at(requested@, announcements@, i)
                && announcements@[i].address@ == ipv4_text(
                addr.oct0,
                addr.oct1,
                addr.oct2,
                addr.oct3,
            ) && addr.port == announcements@[i].port,
        r == Err::<DeviceAddress, ElgatoError>(ElgatoError::DiscoverError) <==> (forall|j: int|
            0 <= j < announcements@.len() ==> announcements@[j].name@ != requested@),
        r matches Err(e) ==> e is DiscoverError || e is IPError,
        r == Err::<DeviceAddress, ElgatoError>(ElgatoError::IPError) ==> exists|i: int|
            #[trigger] first_match_at(requested@, announcements@, i) && (forall|
                o0: u8,
                o1: u8,
                o2: u8,
                o3: u8,
            | announcements@[i].address@ != ipv4_text(o0, o1, o2, o3)),
{
    match first_match(requested, announcements) {
        None => Err(ElgatoError::DiscoverError),
        Some(i) => {
            proof {
                assert(first_match_at(requested@, announcements@, i as int));
            }
            match parse_ipv4(&announcements[i].address) {
                None => Err(ElgatoError::IPError),
                Some((o0, o1, o2, o3)) => Ok(
                    DeviceAddress { oct0: o0, oct1: o1, oct2: o2, oct3: o3, port: announcements[
                        i
                    ].port },
                ),
            }
        },
    }
}

} // verus!
