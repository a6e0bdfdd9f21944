//! A small typed key-value store: an in-memory table of string keys to string
//! values, a pluggable persistence driver that loads and saves the whole
//! table, and typed accessors that parse a stored string on demand.
//!
//! Keys match `^[A-Za-z_][A-Za-z0-9_]*$`; values are any text without a
//! newline. Validation guards the driver boundary on `load` only: data put in
//! at construction, and data handed out by `save`, pass unchecked.

pub mod driver;
pub mod kv;
pub mod parse;

use crate::driver::Driver;
use crate::driver::MemoryDriver;
use crate::kv::KvMap;
use crate::kv::StoreError;
use crate::kv::map_valid;
use crate::kv::valid_key;
use crate::kv::valid_value;
use crate::parse::ParseError;
use crate::parse::spec_parse_bool;
use crate::parse::spec_parse_signed;
use crate::parse::spec_parse_unsigned;
use vstd::prelude::*;

verus! {

/// What the current data is once a driver has answered a load: the fetched
/// mapping when every entry of it is valid, else the data as it was.
pub open spec fn load_outcome(
    current: Map<Seq<char>, Seq<char>>,
    fetched: Map<Seq<char>, Seq<char>>,
) -> Map<Seq<char>, Seq<char>> {
    if map_valid(fetched) {
        fetched
    } else {
        current
    }
}

/// Round trip: a mapping whose every entry is valid comes back exactly as it
/// was saved. `save` writes the data to the medium verbatim, and a load that
/// finds a valid medium adopts it whole — nothing added, dropped or altered.
pub proof fn lemma_save_load_round_trip(
    data: Map<Seq<char>, Seq<char>>,
    current: Map<Seq<char>, Seq<char>>,
)
    requires
        map_valid(data),
    ensures
        load_outcome(current, data) == data,
{
}

/// Atomicity of load: a fetched mapping with any invalid entry is rejected
/// whole. The current data stays what it was, however many valid entries
/// stood beside the invalid one.
pub proof fn lemma_load_atomic(
    current: Map<Seq<char>, Seq<char>>,
    fetched: Map<Seq<char>, Seq<char>>,
)
    requires
        !map_valid(fetched),
    ensures
        load_outcome(current, fetched) == current,
{
}

/// Fetches a snapshot from a driver and checks every entry of it, as `load`
/// and `load_via_driver` require.
fn checked_snapshot<E: Driver>(d: &E) -> (r: Result<KvMap, StoreError>)
    ensures
        r matches Ok(m) ==> m@ == d.medium() && map_valid(d.medium()),
        r matches Err(StoreError::Io(_)) ==> !E::infallible(),
        r matches Err(StoreError::InvalidKey(k)) ==> d.medium().dom().contains(k@) && !valid_key(
            k@,
        ),
        r matches Err(StoreError::InvalidValue(k)) ==> d.medium().dom().contains(k@) && valid_key(
            k@,
        ) && !valid_value(d.medium()[k@]),
        r is Err ==> (r matches Err(StoreError::Io(_)) || !map_valid(d.medium())),
        E::infallible() && map_valid(d.medium()) ==> r is Ok,
{
    match d.load() {
        Err(e) => Err(StoreError::Io(e)),
        Ok(m) => match m.validate() {
            Ok(()) => Ok(m),
            Err(e) => Err(e),
        },
    }
}

/// The key-value store: owns the current data and the active driver, guards
/// the driver boundary on load, and parses values on demand.
pub struct Store<D: Driver> {
    data: KvMap,
    driver: D,
}

impl<D: Driver> View for Store<D> {
    type V = Map<Seq<char>, Seq<char>>;

    closed spec fn view(&self) -> Map<Seq<char>, Seq<char>> {
        self.data@
    }
}

impl Store<MemoryDriver> {
    /// Creates an empty store, with an in-memory driver as the active driver.
    pub fn new() -> (r: Store<MemoryDriver>)
        ensures
            r@ == Map::<Seq<char>, Seq<char>>::empty(),
            r.active_driver().medium() == Map::<Seq<char>, Seq<char>>::empty(),
    {
        Store { data: KvMap::new(), driver: MemoryDriver::new() }
    }

    /// Creates a store that holds `m` as its current data, unvalidated, with
    /// an in-memory driver as the active driver.
    pub fn from(m: KvMap) -> (r: Store<MemoryDriver>)
        ensures
            r@ == m@,
            r.active_driver().medium() == Map::<Seq<char>, Seq<char>>::empty(),
    {
        Store { data: m, driver: MemoryDriver::new() }
    }

    /// True iff `k` is an acceptable key: it starts with an ASCII letter or
    /// an underscore and goes on with letters, digits and underscores only.
    pub fn check_key(k: &String) -> (r: bool)
        ensures
            r == valid_key(k@),
    {
        kv::key_ok(k.as_str())
    }

    /// True iff `v` is an acceptable value: it holds no newline.
    pub fn check_value(v: &String) -> (r: bool)
        ensures
            r == valid_value(v@),
    {
        kv::value_ok(v.as_str())
    }
}

impl<D: Driver> Store<D> {
    /// The active driver, as the contracts speak of it.
    pub closed spec fn active_driver(&self) -> D {
        self.driver
    }

    /// The active driver, read-only.
    pub fn driver(&self) -> (r: &D)
        ensures
            *r == self.active_driver(),
    {
        &self.driver
    }

    /// Replaces the active driver. The current data is untouched: only a
    /// later `load` adopts anything from the new driver.
    pub fn driver_set(&mut self, d: D)
        ensures
            final(self).active_driver() == d,
            final(self)@ == old(self)@,
    {
        self.driver = d;
    }

    /// Loads from the active driver: on success the validated snapshot
    /// replaces the current data whole; on any failure — the driver's or a
    /// validation one — the current data is exactly what it was.
    pub fn load(&mut self) -> (r: Result<(), StoreError>)
        ensures
            final(self).active_driver() == old(self).active_driver(),
            match r {
                Ok(()) => final(self)@ == old(self).active_driver().medium() && map_valid(
                    final(self)@,
                ),
                Err(_) => final(self)@ == old(self)@,
            },
            r matches Err(StoreError::Io(_)) ==> !D::infallible(),
            r matches Err(StoreError::InvalidKey(k)) ==> old(
                self,
            ).active_driver().medium().dom().contains(k@) && !valid_key(k@),
            r matches Err(StoreError::InvalidValue(k)) ==> old(
                self,
            ).active_driver().medium().dom().contains(k@) && valid_key(k@) && !valid_value(
                old(self).active_driver().medium()[k@],
            ),
            r is Err ==> (r matches Err(StoreError::Io(_)) || !map_valid(
                old(self).active_driver().medium(),
            )),
            D::infallible() ==> (r is Ok <==> map_valid(old(self).active_driver().medium())),
            D::infallible() ==> final(self)@ == load_outcome(
                old(self)@,
                old(self).active_driver().medium(),
            ),
    {
        match checked_snapshot(&self.driver) {
            Ok(m) => {
                self.data = m;
                Ok(())
            },
            Err(e) => Err(e),
        }
    }

    /// Loads from a driver supplied for this call only: the active driver is
    /// not consulted and not changed. Mutates the current data on success,
    /// exactly as `load` does.
    pub fn load_via_driver<E: Driver>(&mut self, d: &E) -> (r: Result<(), StoreError>)
        ensures
            final(self).active_driver() == old(self).active_driver(),
            match r {
                Ok(()) => final(self)@ == d.medium() && map_valid(final(self)@),
                Err(_) => final(self)@ == old(self)@,
            },
            r matches Err(StoreError::Io(_)) ==> !E::infallible(),
            r matches Err(StoreError::InvalidKey(k)) ==> d.medium().dom().contains(k@)
                && !valid_key(k@),
            r matches Err(StoreError::InvalidValue(k)) ==> d.medium().dom().contains(k@)
                && valid_key(k@) && !valid_value(d.medium()[k@]),
            r is Err ==> (r matches Err(StoreError::Io(_)) || !map_valid(d.medium())),
            E::infallible() ==> (r is Ok <==> map_valid(d.medium())),
            E::infallible() ==> final(self)@ == load_outcome(old(self)@, d.medium()),
    {
        match checked_snapshot(d) {
            Ok(m) => {
                self.data = m;
                Ok(())
            },
            Err(e) => Err(e),
        }
    }

    /// Hands the current data, unvalidated, to the active driver. The data
    /// itself is untouched; the driver's failure, if any, is passed on.
    pub fn save(&mut self) -> (r: Result<(), StoreError>)
        ensures
            final(self)@ == old(self)@,
            r is Ok ==> final(self).active_driver().medium() == old(self)@,
            r matches Err(e) ==> e is Io,
            D::infallible() ==> r is Ok,
    {
        match self.driver.save(&self.data) {
            Ok(()) => Ok(()),
            Err(e) => Err(StoreError::Io(e)),
        }
    }

    /// Hands the current data, unvalidated, to a driver supplied for this
    /// call only: the active driver and the store are untouched.
    pub fn save_via_driver<E: Driver>(&mut self, d: &mut E) -> (r: Result<(), StoreError>)
        ensures
            *final(self) == *old(self),
            r is Ok ==> final(d).medium() == old(self)@,
            r matches Err(e) ==> e is Io,
            E::infallible() ==> r is Ok,
    {
        match d.save(&self.data) {
            Ok(()) => Ok(()),
            Err(e) => Err(StoreError::Io(e)),
        }
    }

    /// The raw value stored for `k`, when the key is present. Never fails.
    pub fn get(&self, k: &String) -> (r: Option<&String>)
        ensures
            match r {
                Some(v) => self@.dom().contains(k@) && v@ == self@[k@],
                None => !self@.dom().contains(k@),
            },
    {
        self.data.get(k)
    }

    /// The first character of the value stored for `k`, when the key is
    /// present and its value nonempty.
    pub fn get_char(&self, k: &String) -> (r: Option<char>)
        ensures
            match r {
                Some(c) => self@.dom().contains(k@) && self@[k@].len() > 0 && c == self@[k@][0],
                None => !self@.dom().contains(k@) || self@[k@].len() == 0,
            },
    {
        match self.data.get(k) {
            None => None,
            Some(v) => {
                let vs = v.as_str();
                if vs.unicode_len() == 0 {
                    None
                } else {
                    Some(vs.get_char(0))
                }
            },
        }
    }

    /// The value for `k` parsed as an `i8`: absent when the key is missing,
    /// else the outcome of signed decimal parsing within the type's range.
    pub fn get_i8(&self, k: &String) -> (r: Option<Result<i8, ParseError>>)
        ensures
            match r {
                None => !self@.dom().contains(k@),
                Some(pr) => self@.dom().contains(k@) && ({
                    let sp = spec_parse_signed(self@[k@], i8::MIN as int, i8::MAX as int);
                    match pr {
                        Ok(v) => sp == Ok::<int, ParseError>(v as int),
                        Err(e) => sp == Err::<int, ParseError>(e),
                    }
                }),
            },
    {
        match self.data.get(k) {
            None => None,
            Some(v) => match parse::parse_signed_str(v.as_str(), 128, 127) {
                Ok(x) => Some(Ok(x as i8)),
                Err(e) => Some(Err(e)),
            },
        }
    }

    /// The value for `k` parsed as a `u8`: absent when the key is missing,
    /// else the outcome of unsigned decimal parsing within the type's range.
    pub fn get_u8(&self, k: &String) -> (r: Option<Result<u8, ParseError>>)
        ensures
            match r {
                None => !self@.dom().contains(k@),
                Some(pr) => self@.dom().contains(k@) && ({
                    let sp = spec_parse_unsigned(self@[k@], u8::MAX as int);
                    match pr {
                        Ok(v) => sp == Ok::<int, ParseError>(v as int),
                        Err(e) => sp == Err::<int, ParseError>(e),
                    }
                }),
            },
    {
        match self.data.get(k) {
            None => None,
            Some(v) => match parse::parse_unsigned_str(v.as_str(), 255) {
                Ok(x) => Some(Ok(x as u8)),
                Err(e) => Some(Err(e)),
            },
        }
    }

    /// The value for `k` parsed as an `i16`: absent when the key is missing,
    /// else the outcome of signed decimal parsing within the type's range.
    pub fn get_i16(&self, k: &String) -> (r: Option<Result<i16, ParseError>>)
        ensures
            match r {
                None => !self@.dom().contains(k@),
                Some(pr) => self@.dom().contains(k@) && ({
                    let sp = spec_parse_signed(self@[k@], i16::MIN as int, i16::MAX as int);
                    match pr {
                        Ok(v) => sp == Ok::<int, ParseError>(v as int),
                        Err(e) => sp == Err::<int, ParseError>(e),
                    }
                }),
            },
    {
        match self.data.get(k) {
            None => None,
            Some(v) => match parse::parse_signed_str(v.as_str(), 32768, 32767) {
                Ok(x) => Some(Ok(x as i16)),
                Err(e) => Some(Err(e)),
            },
        }
    }

    /// The value for `k` parsed as a `u16`: absent when the key is missing,
    /// else the outcome of unsigned decimal parsing within the type's range.
    pub fn get_u16(&self, k: &String) -> (r: Option<Result<u16, ParseError>>)
        ensures
            match r {
                None => !self@.dom().contains(k@),
                Some(pr) => self@.dom().contains(k@) && ({
                    let sp = spec_parse_unsigned(self@[k@], u16::MAX as int);
                    match pr {
                        Ok(v) => sp == Ok::<int, ParseError>(v as int),
                        Err(e) => sp == Err::<int, ParseError>(e),
                    }
                }),
            },
    {
        match self.data.get(k) {
            None => None,
            Some(v) => match parse::parse_unsigned_str(v.as_str(), 65535) {
                Ok(x) => Some(Ok(x as u16)),
                Err(e) => Some(Err(e)),
            },
        }
    }

    /// The value for `k` parsed as an `i32`: absent when the key is missing,
    /// else the outcome of signed decimal parsing within the type's range.
    pub fn get_i32(&self, k: &String) -> (r: Option<Result<i32, ParseError>>)
        ensures
            match r {
                None => !self@.dom().contains(k@),
                Some(pr) => self@.dom().contains(k@) && ({
                    let sp = spec_parse_signed(self@[k@], i32::MIN as int, i32::MAX as int);
                    match pr {
                        Ok(v) => sp == Ok::<int, ParseError>(v as int),
                        Err(e) => sp == Err::<int, ParseError>(e),
                    }
                }),
            },
    {
        match self.data.get(k) {
            None => None,
            Some(v) => match parse::parse_signed_str(v.as_str(), 2147483648, 2147483647) {
                Ok(x) => Some(Ok(x as i32)),
                Err(e) => Some(Err(e)),
            },
        }
    }

    /// The value for `k` parsed as a `u32`: absent when the key is missing,
    /// else the outcome of unsigned decimal parsing within the type's range.
    pub fn get_u32(&self, k: &String) -> (r: Option<Result<u32, ParseError>>)
        ensures
            match r {
                None => !self@.dom().contains(k@),
                Some(pr) => self@.dom().contains(k@) && ({
                    let sp = spec_parse_unsigned(self@[k@], u32::MAX as int);
                    match pr {
                        Ok(v) => sp == Ok::<int, ParseError>(v as int),
                        Err(e) => sp == Err::<int, ParseError>(e),
                    }
                }),
            },
    {
        match self.data.get(k) {
            None => None,
            Some(v) => match parse::parse_unsigned_str(v.as_str(), 4294967295) {
                Ok(x) => Some(Ok(x as u32)),
                Err(e) => Some(Err(e)),
            },
        }
    }

    /// The value for `k` parsed as an `i64`: absent when the key is missing,
    /// else the outcome of signed decimal parsing within the type's range.
    pub fn get_i64(&self, k: &String) -> (r: Option<Result<i64, ParseError>>)
        ensures
            match r {
                None => !self@.dom().contains(k@),
                Some(pr) => self@.dom().contains(k@) && ({
                    let sp = spec_parse_signed(self@[k@], i64::MIN as int, i64::MAX as int);
                    match pr {
                        Ok(v) => sp == Ok::<int, ParseError>(v as int),
                        Err(e) => sp == Err::<int, ParseError>(e),
                    }
                }),
            },
    {
        match self.data.get(k) {
            None => None,
            Some(v) => match parse::parse_signed_str(
                v.as_str(),
                9223372036854775808,
                9223372036854775807,
            ) {
                Ok(x) => Some(Ok(x)),
                Err(e) => Some(Err(e)),
            },
        }
    }

    /// The value for `k` parsed as a `u64`: absent when the key is missing,
    /// else the outcome of unsigned decimal parsing within the type's range.
    pub fn get_u64(&self, k: &String) -> (r: Option<Result<u64, ParseError>>)
        ensures
            match r {
                None => !self@.dom().contains(k@),
                Some(pr) => self@.dom().contains(k@) && ({
                    let sp = spec_parse_unsigned(self@[k@], u64::MAX as int);
                    match pr {
                        Ok(v) => sp == Ok::<int, ParseError>(v as int),
                        Err(e) => sp == Err::<int, ParseError>(e),
                    }
                }),
            },
    {
        match self.data.get(k) {
            None => None,
            Some(v) => match parse::parse_unsigned_str(v.as_str(), 18446744073709551615) {
                Ok(x) => Some(Ok(x)),
                Err(e) => Some(Err(e)),
            },
        }
    }

    /// The value for `k` parsed as an `isize`: absent when the key is
    /// missing, else the outcome of signed decimal parsing within the type's
    /// range on this machine.
    pub fn get_isize(&self, k: &String) -> (r: Option<Result<isize, ParseError>>)
        ensures
            match r {
                None => !self@.dom().contains(k@),
                Some(pr) => self@.dom().contains(k@) && ({
                    let sp = spec_parse_signed(self@[k@], isize::MIN as int, isize::MAX as int);
                    match pr {
                        Ok(v) => sp == Ok::<int, ParseError>(v as int),
                        Err(e) => sp == Err::<int, ParseError>(e),
                    }
                }),
            },
    {
        match self.data.get(k) {
            None => None,
            Some(v) => {
                let neg_mag: u64 = (-(isize::MIN as i128)) as u64;
                let max: u64 = isize::MAX as u64;
                match parse::parse_signed_str(v.as_str(), neg_mag, max) {
                    Ok(x) => Some(Ok(x as isize)),
                    Err(e) => Some(Err(e)),
                }
            },
        }
    }

    /// The value for `k` parsed as a `usize`: absent when the key is missing,
    /// else the outcome of unsigned decimal parsing within the type's range
    /// on this machine.
    pub fn get_usize(&self, k: &String) -> (r: Option<Result<usize, ParseError>>)
        ensures
            match r {
                None => !self@.dom().contains(k@),
                Some(pr) => self@.dom().contains(k@) && ({
                    let sp = spec_parse_unsigned(self@[k@], usize::MAX as int);
                    match pr {
                        Ok(v) => sp == Ok::<int, ParseError>(v as int),
                        Err(e) => sp == Err::<int, ParseError>(e),
                    }
                }),
            },
    {
        match self.data.get(k) {
            None => None,
            Some(v) => {
                let max: u64 = usize::MAX as u64;
                match parse::parse_unsigned_str(v.as_str(), max) {
                    Ok(x) => Some(Ok(x as usize)),
                    Err(e) => Some(Err(e)),
                }
            },
        }
    }

    /// The value for `k` parsed as a `bool`: absent when the key is missing,
    /// else `true` or `false` for exactly those literals, a parse failure for
    /// any other text.
    pub fn get_bool(&self, k: &String) -> (r: Option<Result<bool, ParseError>>)
        ensures
            match r {
                None => !self@.dom().contains(k@),
                Some(pr) => self@.dom().contains(k@) && ({
                    let sp = spec_parse_bool(self@[k@]);
                    match pr {
                        Ok(v) => sp == Ok::<bool, ParseError>(v),
                        Err(e) => sp == Err::<bool, ParseError>(e),
                    }
                }),
            },
    {
        match self.data.get(k) {
            None => None,
            Some(v) => match parse::parse_bool_str(v.as_str()) {
                Ok(x) => Some(Ok(x)),
                Err(e) => Some(Err(e)),
            },
        }
    }
}

} // verus!
