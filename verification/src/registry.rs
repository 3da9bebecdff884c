//! The registry: effects, store drivers and serial formats by name, and a source of
//! configuration.
use vstd::prelude::*;
use crate::text::string_from_str;
use crate::schema::entries::{string_keys, sorted_keys, insert_sorted, find_entry, lemma_index_of_key};
use crate::state::cells::{table_of, lemma_table_at, lemma_table_insert};
use crate::effects::errors::EffectError;
use crate::serial::errors::SerialError;
use crate::store::errors::StoreError;

verus! {

/// The table that binding each pair in order gives: a later pair with the same name
/// replaces an earlier one.
pub open spec fn table_from<V>(pairs: Seq<(&str, V)>) -> Map<Seq<char>, V>
    decreases pairs.len(),
{
    if pairs.len() == 0 {
        Map::empty()
    } else {
        table_from(pairs.drop_last()).insert(pairs.last().0@, pairs.last().1)
    }
}

/// Named entries built from pairs, in ascending name order.
fn named_table<V>(pairs: Vec<(&'static str, V)>) -> (r: Vec<(String, V)>)
    ensures
        sorted_keys(string_keys(r@)),
        table_of(r@) == table_from(pairs@),
{
    let ghost all = pairs@;
    let total = pairs.len();
    let mut rest = pairs;
    let mut out: Vec<(String, V)> = Vec::new();
    let mut n: usize = 0;
    assert(all.skip(0) =~= all);
    assert(table_of(out@) =~= Map::<Seq<char>, V>::empty());
    assert(all.subrange(0, 0) =~= Seq::<(&str, V)>::empty());
    while rest.len() > 0
        invariant
            n <= all.len(),
            all.len() == total,
            rest@ == all.skip(n as int),
            sorted_keys(string_keys(out@)),
            table_of(out@) == table_from(all.subrange(0, n as int)),
        decreases rest.len(),
    {
        let (name, v) = rest.remove(0);
        assert(all[n as int] == (name, v));
        let key = string_from_str(name);
        proof {
            lemma_table_insert(out@, key, v);
            let pre = all.subrange(0, n as int);
            let post = all.subrange(0, n + 1);
            assert(post.drop_last() =~= pre);
            assert(post.last() == (name, v));
        }
        insert_sorted(&mut out, key, v);
        n = n + 1;
        assert(all.skip(n as int) =~= all.skip((n - 1) as int).drop_first());
    }
    assert(all.subrange(0, n as int) =~= all);
    out
}

/// Effects, store drivers and serial formats by name, and a source of configuration.
pub struct Registry<E, D, F, C> {
    effects: Vec<(String, E)>,
    store_drivers: Vec<(String, D)>,
    serial_formats: Vec<(String, F)>,
    config_src: C,
}

impl<E, D, F, C> Registry<E, D, F, C> {
    /// Names are held in ascending order.
    #[verifier::type_invariant]
    spec fn well_formed(&self) -> bool {
        &&& sorted_keys(string_keys(self.effects@))
        &&& sorted_keys(string_keys(self.store_drivers@))
        &&& sorted_keys(string_keys(self.serial_formats@))
    }

    /// The effects, by name.
    pub closed spec fn effects(&self) -> Map<Seq<char>, E> {
        table_of(self.effects@)
    }

    /// The store drivers, by name.
    pub closed spec fn store_drivers(&self) -> Map<Seq<char>, D> {
        table_of(self.store_drivers@)
    }

    /// The serial formats, by name.
    pub closed spec fn serial_formats(&self) -> Map<Seq<char>, F> {
        table_of(self.serial_formats@)
    }

    /// The source of configuration.
    pub closed spec fn spec_config_src(&self) -> C {
        self.config_src
    }

    /// A registry of the given effects, store drivers and serial formats (a later entry with
    /// the same name replaces an earlier one) and source of configuration.
    pub fn new(
        effect_set: Vec<(&'static str, E)>,
        store_driver_set: Vec<(&'static str, D)>,
        serial_formats_set: Vec<(&'static str, F)>,
        config_src: C,
    ) -> (r: Self)
        ensures
            r.effects() == table_from(effect_set@),
            r.store_drivers() == table_from(store_driver_set@),
            r.serial_formats() == table_from(serial_formats_set@),
            r.spec_config_src() == config_src,
    {
        let effects = named_table(effect_set);
        let store_drivers = named_table(store_driver_set);
        let serial_formats = named_table(serial_formats_set);
        Self { effects, store_drivers, serial_formats, config_src }
    }

    /// The effect named `effect_name`, or `Missing` with the name.
    pub fn get_effect(&self, effect_name: &str) -> (r: Result<&E, EffectError>)
        ensures
            match self.effects().get(effect_name@) {
                Some(e) => r matches Ok(re) && *re == e,
                None => r matches Err(EffectError::Missing(m)) && m@ == effect_name@,
            },
    {
        proof {
            use_type_invariant(self);
            lemma_table_at(self.effects@, effect_name@);
            lemma_index_of_key(string_keys(self.effects@), effect_name@);
        }
        match find_entry(&self.effects, effect_name) {
            Some(i) => Ok(&self.effects[i].1),
            None => Err(EffectError::Missing(string_from_str(effect_name))),
        }
    }

    /// The store driver named `driver_name`, or a backend error "invalid driver".
    pub fn store_driver(&self, driver_name: &str) -> (r: Result<&D, StoreError>)
        ensures
            match self.store_drivers().get(driver_name@) {
                Some(d) => r matches Ok(rd) && *rd == d,
                None => r matches Err(StoreError::Backend(m)) && m@ == "invalid driver"@,
            },
    {
        proof {
            use_type_invariant(self);
            lemma_table_at(self.store_drivers@, driver_name@);
            lemma_index_of_key(string_keys(self.store_drivers@), driver_name@);
        }
        match find_entry(&self.store_drivers, driver_name) {
            Some(i) => Ok(&self.store_drivers[i].1),
            None => Err(StoreError::Backend(string_from_str("invalid driver"))),
        }
    }

    /// The serial format named `format_name`, or a format error "invalid format".
    pub fn get_serial_format(&self, format_name: &str) -> (r: Result<&F, SerialError>)
        ensures
            match self.serial_formats().get(format_name@) {
                Some(f) => r matches Ok(rf) && *rf == f,
                None => r matches Err(SerialError::Format(m)) && m@ == "invalid format"@,
            },
    {
        proof {
            use_type_invariant(self);
            lemma_table_at(self.serial_formats@, format_name@);
            lemma_index_of_key(string_keys(self.serial_formats@), format_name@);
        }
        match find_entry(&self.serial_formats, format_name) {
            Some(i) => Ok(&self.serial_formats[i].1),
            None => Err(SerialError::Format(string_from_str("invalid format"))),
        }
    }

    /// The source of configuration.
    pub fn config_src(&self) -> (r: &C)
        ensures
            *r == self.spec_config_src(),
    {
        &self.config_src
    }
}

} // verus!
