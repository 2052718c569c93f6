use vstd::prelude::*;
use crate::segments::find_key_from;

verus! {

/// The telegram protocol revisions a region may use.
#[derive(Clone, Copy, Debug, PartialEq, Eq, Structural, Hash)]
pub enum R09Types {
    R14,
    R16,
    R18,
}

/// The reporting phase a transmission position belongs to.
#[derive(Clone, Copy, Debug, PartialEq, Eq, Structural, Hash)]
pub enum TelegramType {
    PreRegistration,
    Registration,
    DeRegistration,
    DoorClosed,
}

/// The protocol revision named by a code string.
pub open spec fn r09_of_code(s: Seq<char>) -> Option<R09Types> {
    if s == "R09.14"@ {
        Some(R09Types::R14)
    } else if s == "R09.16"@ {
        Some(R09Types::R16)
    } else if s == "R09.18"@ {
        Some(R09Types::R18)
    } else {
        None
    }
}

/// Parse a protocol revision from its code string.
pub fn r09_from_code(s: &String) -> (r: Option<R09Types>)
    ensures
        r == r09_of_code(s@),
{
    let c14 = "R09.14".to_owned();
    let c16 = "R09.16".to_owned();
    let c18 = "R09.18".to_owned();
    if *s == c14 {
        Some(R09Types::R14)
    } else if *s == c16 {
        Some(R09Types::R16)
    } else if *s == c18 {
        Some(R09Types::R18)
    } else {
        None
    }
}

/// The code string of a protocol revision.
pub fn r09_code(t: &R09Types) -> (r: String)
    ensures
        r@ == (match *t {
            R09Types::R14 => "R09.14"@,
            R09Types::R16 => "R09.16"@,
            R09Types::R18 => "R09.18"@,
        }),
{
    match t {
        R09Types::R14 => "R09.14".to_owned(),
        R09Types::R16 => "R09.16".to_owned(),
        R09Types::R18 => "R09.18".to_owned(),
    }
}

/// The protocol revision named by a number.
pub open spec fn r09_of_number(n: u64) -> Option<R09Types> {
    if n == 14 {
        Some(R09Types::R14)
    } else if n == 16 {
        Some(R09Types::R16)
    } else if n == 18 {
        Some(R09Types::R18)
    } else {
        None
    }
}

/// Parse a protocol revision from its number.
pub fn r09_from_number(n: u64) -> (r: Option<R09Types>)
    ensures
        r == r09_of_number(n),
{
    if n == 14 {
        Some(R09Types::R14)
    } else if n == 16 {
        Some(R09Types::R16)
    } else if n == 18 {
        Some(R09Types::R18)
    } else {
        None
    }
}

/// The number of a protocol revision.
pub fn r09_number(t: &R09Types) -> (r: u64)
    ensures
        r == (match *t {
            R09Types::R14 => 14u64,
            R09Types::R16 => 16u64,
            R09Types::R18 => 18u64,
        }),
{
    match t {
        R09Types::R14 => 14,
        R09Types::R16 => 16,
        R09Types::R18 => 18,
    }
}

/// The reporting phase named by a code string.
pub open spec fn telegram_type_of_code(s: Seq<char>) -> Option<TelegramType> {
    if s == "pre_registration"@ {
        Some(TelegramType::PreRegistration)
    } else if s == "registration"@ {
        Some(TelegramType::Registration)
    } else if s == "de_registration"@ {
        Some(TelegramType::DeRegistration)
    } else if s == "door_close"@ {
        Some(TelegramType::DoorClosed)
    } else {
        None
    }
}

/// Parse a reporting phase from its code string.
pub fn telegram_type_from_code(s: &String) -> (r: Option<TelegramType>)
    ensures
        r == telegram_type_of_code(s@),
{
    let c0 = "pre_registration".to_owned();
    let c1 = "registration".to_owned();
    let c2 = "de_registration".to_owned();
    let c3 = "door_close".to_owned();
    if *s == c0 {
        Some(TelegramType::PreRegistration)
    } else if *s == c1 {
        Some(TelegramType::Registration)
    } else if *s == c2 {
        Some(TelegramType::DeRegistration)
    } else if *s == c3 {
        Some(TelegramType::DoorClosed)
    } else {
        None
    }
}

/// The reporting phase named by a number.
pub open spec fn telegram_type_of_number(n: u64) -> Option<TelegramType> {
    if n == 0 {
        Some(TelegramType::PreRegistration)
    } else if n == 1 {
        Some(TelegramType::Registration)
    } else if n == 2 {
        Some(TelegramType::DeRegistration)
    } else if n == 3 {
        Some(TelegramType::DoorClosed)
    } else {
        None
    }
}

/// Parse a reporting phase from its number.
pub fn telegram_type_from_number(n: u64) -> (r: Option<TelegramType>)
    ensures
        r == telegram_type_of_number(n),
{
    if n == 0 {
        Some(TelegramType::PreRegistration)
    } else if n == 1 {
        Some(TelegramType::Registration)
    } else if n == 2 {
        Some(TelegramType::DeRegistration)
    } else if n == 3 {
        Some(TelegramType::DoorClosed)
    } else {
        None
    }
}

/// The digit string a reporting phase is written as.
pub fn telegram_type_code(t: &TelegramType) -> (r: String)
    ensures
        r@ == (match *t {
            TelegramType::PreRegistration => "0"@,
            TelegramType::Registration => "1"@,
            TelegramType::DeRegistration => "2"@,
            TelegramType::DoorClosed => "3"@,
        }),
{
    match t {
        TelegramType::PreRegistration => "0".to_owned(),
        TelegramType::Registration => "1".to_owned(),
        TelegramType::DeRegistration => "2".to_owned(),
        TelegramType::DoorClosed => "3".to_owned(),
    }
}

/// One reported position of a junction: its optional stop identifiers,
/// the reporting phase, the direction code, and the coordinates in
/// microdegrees.
#[derive(Debug)]
pub struct TransmissionPosition {
    pub dhid: Option<String>,
    pub name: Option<String>,
    pub telegram_type: TelegramType,
    pub direction: u8,
    pub lat_udeg: i64,
    pub lon_udeg: i64,
}

/// The mathematical value of a transmission position.
pub struct TransmissionPositionV {
    pub dhid: Option<Seq<char>>,
    pub name: Option<Seq<char>>,
    pub telegram_type: TelegramType,
    pub direction: u8,
    pub lat_udeg: i64,
    pub lon_udeg: i64,
}

impl View for TransmissionPosition {
    type V = TransmissionPositionV;

    open spec fn view(&self) -> TransmissionPositionV {
        TransmissionPositionV {
            dhid: match self.dhid {
                Option::Some(s) => Some(s@),
                Option::None => None,
            },
            name: match self.name {
                Option::Some(s) => Some(s@),
                Option::None => None,
            },
            telegram_type: self.telegram_type,
            direction: self.direction,
            lat_udeg: self.lat_udeg,
            lon_udeg: self.lon_udeg,
        }
    }
}

/// What a region knows about its telegram network.
#[derive(Debug)]
pub struct RegionMetaInformation {
    pub frequency: Option<u64>,
    pub city_name: Option<String>,
    pub type_r09: Option<R09Types>,
}

/// The mathematical value of a region's metadata.
pub struct RegionMetaInformationV {
    pub frequency: Option<u64>,
    pub city_name: Option<Seq<char>>,
    pub type_r09: Option<R09Types>,
}

impl View for RegionMetaInformation {
    type V = RegionMetaInformationV;

    open spec fn view(&self) -> RegionMetaInformationV {
        RegionMetaInformationV {
            frequency: self.frequency,
            city_name: match self.city_name {
                Option::Some(s) => Some(s@),
                Option::None => None,
            },
            type_r09: self.type_r09,
        }
    }
}

/// Provenance of one registry document; the date counts seconds since
/// the epoch.
#[derive(Debug)]
pub struct DocumentMetaInformation {
    pub schema_version: String,
    pub date: i64,
    pub generator: Option<String>,
    pub generator_version: Option<String>,
}

/// The positions of a region's junctions, keyed by junction number.
pub type RegionalTransmissionPositions = Vec<(u32, Vec<TransmissionPosition>)>;

/// The whole registry: one document of per-region position tables and
/// per-region metadata, keyed by region name.
#[derive(Debug)]
pub struct InterRegional {
    pub document: DocumentMetaInformation,
    pub data: Vec<(String, RegionalTransmissionPositions)>,
    pub meta: Vec<(String, RegionMetaInformation)>,
}

/// One region cut out of the registry.
#[derive(Debug)]
pub struct Region {
    pub traffic_lights: RegionalTransmissionPositions,
    pub meta: RegionMetaInformation,
}

/// The values of a position list.
pub open spec fn tp_views(s: Seq<TransmissionPosition>) -> Seq<TransmissionPositionV> {
    Seq::new(s.len(), |i: int| s[i]@)
}

/// The values of a region's position table.
pub open spec fn rtp_views(s: Seq<(u32, Vec<TransmissionPosition>)>) -> Seq<
    (u32, Seq<TransmissionPositionV>),
> {
    Seq::new(s.len(), |i: int| (s[i].0, tp_views(s[i].1@)))
}

/// The values of the registry's data table.
pub open spec fn data_views(s: Seq<(String, RegionalTransmissionPositions)>) -> Seq<
    (Seq<char>, Seq<(u32, Seq<TransmissionPositionV>)>),
> {
    Seq::new(s.len(), |i: int| (s[i].0@, rtp_views(s[i].1@)))
}

/// The values of the registry's metadata table.
pub open spec fn meta_views(s: Seq<(String, RegionMetaInformation)>) -> Seq<
    (Seq<char>, RegionMetaInformationV),
> {
    Seq::new(s.len(), |i: int| (s[i].0@, s[i].1@))
}

/// A faithful copy of one transmission position.
fn copy_tp(tp: &TransmissionPosition) -> (r: TransmissionPosition)
    ensures
        r@ == tp@,
{
    TransmissionPosition {
        dhid: match &tp.dhid {
            Option::Some(s) => Some(s.clone()),
            Option::None => None,
        },
        name: match &tp.name {
            Option::Some(s) => Some(s.clone()),
            Option::None => None,
        },
        telegram_type: tp.telegram_type,
        direction: tp.direction,
        lat_udeg: tp.lat_udeg,
        lon_udeg: tp.lon_udeg,
    }
}

/// A faithful copy of a position list.
fn copy_tp_list(l: &Vec<TransmissionPosition>) -> (r: Vec<TransmissionPosition>)
    ensures
        tp_views(r@) == tp_views(l@),
{
    let mut r: Vec<TransmissionPosition> = Vec::new();
    let mut i: usize = 0;
    while i < l.len()
        invariant
            i <= l@.len(),
            r@.len() == i,
            forall|k: int| 0 <= k < i ==> (#[trigger] r@[k])@ == l@[k]@,
        decreases l@.len() - i,
    {
        r.push(copy_tp(&l[i]));
        i += 1;
    }
    proof {
        assert(tp_views(r@) =~= tp_views(l@));
    }
    r
}

/// A faithful copy of a region's position table.
fn copy_rtp(t: &RegionalTransmissionPositions) -> (r: RegionalTransmissionPositions)
    ensures
        rtp_views(r@) == rtp_views(t@),
{
    let mut r: RegionalTransmissionPositions = Vec::new();
    let mut i: usize = 0;
    while i < t.len()
        invariant
            i <= t@.len(),
            r@.len() == i,
            forall|k: int|
                0 <= k < i ==> (#[trigger] r@[k]).0 == t@[k].0 && tp_views(r@[k].1@) == tp_views(
                    t@[k].1@,
                ),
        decreases t@.len() - i,
    {
        let (num, list) = &t[i];
        r.push((*num, copy_tp_list(list)));
        i += 1;
    }
    proof {
        assert(rtp_views(r@) =~= rtp_views(t@));
    }
    r
}

/// A faithful copy of a region's metadata.
fn copy_meta(m: &RegionMetaInformation) -> (r: RegionMetaInformation)
    ensures
        r@ == m@,
{
    RegionMetaInformation {
        frequency: m.frequency,
        city_name: match &m.city_name {
            Option::Some(s) => Some(s.clone()),
            Option::None => None,
        },
        type_r09: m.type_r09,
    }
}

/// The position of the first `DoorClosed` entry at or after `i`.
pub open spec fn first_door_closed(l: Seq<TransmissionPositionV>, i: int) -> Option<int>
    decreases l.len() - i,
{
    if i < 0 || i >= l.len() {
        None
    } else if l[i].telegram_type is DoorClosed {
        Some(i)
    } else {
        first_door_closed(l, i + 1)
    }
}

impl InterRegional {
    /// Cut one region out of the registry: its position table and its
    /// metadata, both found by the region's name; a name missing from
    /// either table yields nothing.
    pub fn extract(&self, region_name: &String) -> (r: Option<Region>)
        ensures
            ({
                let dk = find_key_from(data_views(self.data@), region_name@, 0);
                let mk = find_key_from(meta_views(self.meta@), region_name@, 0);
                match (dk, mk) {
                    (Option::Some(di), Option::Some(mi)) => {
                        &&& r is Some
                        &&& rtp_views(r->Some_0.traffic_lights@) == data_views(self.data@)[di].1
                        &&& r->Some_0.meta@ == meta_views(self.meta@)[mi].1
                    },
                    _ => r is None,
                }
            }),
    {
        let data = self.find_data(region_name);
        let meta = self.find_meta(region_name);
        match (data, meta) {
            (Option::Some(d), Option::Some(m)) => Some(
                Region { traffic_lights: copy_rtp(d), meta: copy_meta(m) },
            ),
            _ => None,
        }
    }

    /// The position table of a region, by name.
    fn find_data(&self, region_name: &String) -> (r: Option<&RegionalTransmissionPositions>)
        ensures
            match find_key_from(data_views(self.data@), region_name@, 0) {
                Option::None => r is None,
                Option::Some(i) => r is Some && rtp_views(r->Some_0@) == data_views(
                    self.data@,
                )[i].1,
            },
    {
        let ghost m = data_views(self.data@);
        let mut i: usize = 0;
        while i < self.data.len()
            invariant
                i <= self.data@.len(),
                m == data_views(self.data@),
                find_key_from(m, region_name@, 0) == find_key_from(m, region_name@, i as int),
            decreases self.data@.len() - i,
        {
            if self.data[i].0 == *region_name {
                proof {
                    assert(m[i as int].0 == region_name@);
                }
                return Some(&self.data[i].1);
            }
            proof {
                assert(m[i as int].0 != region_name@);
            }
            i += 1;
        }
        None
    }

    /// The metadata of a region, by name.
    fn find_meta(&self, region_name: &String) -> (r: Option<&RegionMetaInformation>)
        ensures
            match find_key_from(meta_views(self.meta@), region_name@, 0) {
                Option::None => r is None,
                Option::Some(i) => r is Some && r->Some_0@ == meta_views(self.meta@)[i].1,
            },
    {
        let ghost m = meta_views(self.meta@);
        let mut i: usize = 0;
        while i < self.meta.len()
            invariant
                i <= self.meta@.len(),
                m == meta_views(self.meta@),
                find_key_from(m, region_name@, 0) == find_key_from(m, region_name@, i as int),
            decreases self.meta@.len() - i,
        {
            if self.meta[i].0 == *region_name {
                proof {
                    assert(m[i as int].0 == region_name@);
                }
                return Some(&self.meta[i].1);
            }
            proof {
                assert(m[i as int].0 != region_name@);
            }
            i += 1;
        }
        None
    }

    /// The positions reported for one junction of one region: the
    /// region's table is found by name, the junction's list by number,
    /// and a copy of the list is handed out.
    #[verifier::loop_isolation(false)]
    pub fn look_up(&self, region_name: &String, traffic_light: &u32) -> (r: Option<
        Vec<TransmissionPosition>,
    >)
        ensures
            ({
                let dk = find_key_from(data_views(self.data@), region_name@, 0);
                match dk {
                    Option::None => r is None,
                    Option::Some(di) => {
                        let region = data_views(self.data@)[di].1;
                        match find_key_from(region, *traffic_light, 0) {
                            Option::None => r is None,
                            Option::Some(ti) => r is Some && tp_views(r->Some_0@) == region[ti].1,
                        }
                    },
                }
            }),
    {
        let data = self.find_data(region_name);
        match data {
            Option::None => None,
            Option::Some(region) => {
                let ghost m = rtp_views(region@);
                let mut i: usize = 0;
                while i < region.len()
                    invariant
                        i <= region@.len(),
                        m == rtp_views(region@),
                        find_key_from(m, *traffic_light, 0) == find_key_from(
                            m,
                            *traffic_light,
                            i as int,
                        ),
                    decreases region@.len() - i,
                {
                    if region[i].0 == *traffic_light {
                        proof {
                            assert(m[i as int].0 == *traffic_light);
                        }
                        return Some(copy_tp_list(&region[i].1));
                    }
                    proof {
                        assert(m[i as int].0 != *traffic_light);
                    }
                    i += 1;
                }
                None
            },
        }
    }

    /// The best known position of one junction: the first `DoorClosed`
    /// report where one exists, else the first report; an unknown
    /// region, an unknown junction or an empty report list yields
    /// nothing.
    #[verifier::loop_isolation(false)]
    pub fn get_approximate_position(&self, region_name: &String, traffic_light: &u32) -> (r:
        Option<TransmissionPosition>)
        ensures
            ({
                let dk = find_key_from(data_views(self.data@), region_name@, 0);
                match dk {
                    Option::None => r is None,
                    Option::Some(di) => {
                        let region = data_views(self.data@)[di].1;
                        match find_key_from(region, *traffic_light, 0) {
                            Option::None => r is None,
                            Option::Some(ti) => {
                                let list = region[ti].1;
                                if list.len() == 0 {
                                    r is None
                                } else {
                                    match first_door_closed(list, 0) {
                                        Option::Some(p) => r is Some && r->Some_0@ == list[p],
                                        Option::None => r is Some && r->Some_0@ == list[0],
                                    }
                                }
                            },
                        }
                    },
                }
            }),
    {
        let stop_list = self.look_up(region_name, traffic_light);
        match stop_list {
            Option::None => None,
            Option::Some(list) => {
                if list.len() == 0 {
                    return None;
                }
                let ghost lv = tp_views(list@);
                let mut i: usize = 0;
                while i < list.len()
                    invariant
                        i <= list@.len(),
                        lv == tp_views(list@),
                        list@.len() > 0,
                        first_door_closed(lv, 0) == first_door_closed(lv, i as int),
                    decreases list@.len() - i,
                {
                    match list[i].telegram_type {
                        TelegramType::DoorClosed => {
                            proof {
                                assert(lv[i as int].telegram_type is DoorClosed);
                            }
                            return Some(copy_tp(&list[i]));
                        },
                        _ => {},
                    }
                    proof {
                        assert(!(lv[i as int].telegram_type is DoorClosed));
                    }
                    i += 1;
                }
                Some(copy_tp(&list[0]))
            },
        }
    }
}

} // verus!
