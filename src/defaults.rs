use vstd::prelude::*;
use crate::settings::{Settings, entries_map};

verus! {

/// Advisory bounds for one parameter, for an input form: a label, the
/// valid range `[min, max]`, a step and the default value.
#[derive(Clone, Copy, Debug)]
pub struct SettingConstraint<V> {
    pub label: &'static str,
    pub min: V,
    pub max: V,
    pub step: V,
    pub default: V,
}

/// The group a parameter belongs to.
#[derive(Clone, Copy, Debug, PartialEq, Eq, Structural)]
pub enum SettingGroup {
    /// A parameter of the curve.
    Curve,
    /// A parameter of the device, handed to the driver.
    Raw,
}

/// The entries of `rows` that belong to group `g`, as name and constraint.
pub open spec fn group_entries<V>(rows: Seq<(SettingGroup, String, SettingConstraint<V>)>, g: SettingGroup) -> Seq<(String, SettingConstraint<V>)>
    decreases rows.len(),
{
    if rows.len() == 0 {
        Seq::empty()
    } else {
        let rest = group_entries(rows.drop_last(), g);
        if rows.last().0 == g {
            rest.push((rows.last().1, rows.last().2))
        } else {
            rest
        }
    }
}

/// The constraints of all parameters, by group.
#[derive(Clone, Debug)]
pub struct DefaultSettings<V> {
    pub curve_settings: Settings<SettingConstraint<V>>,
    pub raw_accel_settings: Settings<SettingConstraint<V>>,
}

impl<V: Copy> DefaultSettings<V> {
    pub open spec fn wf(&self) -> bool {
        self.curve_settings.wf() && self.raw_accel_settings.wf()
    }

    /// Sorts a table of constraints into its groups; of two rows with one
    /// name in one group, the later one stands.
    pub fn from_table(rows: &Vec<(SettingGroup, String, SettingConstraint<V>)>) -> (r: Self)
        ensures
            r.wf(),
            r.curve_settings@ == entries_map(group_entries(rows@, SettingGroup::Curve)),
            r.raw_accel_settings@ == entries_map(group_entries(rows@, SettingGroup::Raw)),
    {
        let mut curve = Settings::new();
        let mut raw = Settings::new();
        let mut i: usize = 0;
        while i < rows.len()
            invariant
                i <= rows@.len(),
                curve.wf(),
                raw.wf(),
                curve@ == entries_map(group_entries(rows@.subrange(0, i as int), SettingGroup::Curve)),
                raw@ == entries_map(group_entries(rows@.subrange(0, i as int), SettingGroup::Raw)),
            decreases rows@.len() - i,
        {
            let group = rows[i].0;
            let key = rows[i].1.clone();
            let c = rows[i].2;
            assert(rows@.subrange(0, i + 1).drop_last() =~= rows@.subrange(0, i as int));
            let ghost pre = rows@.subrange(0, i as int);
            let ghost cur = rows@.subrange(0, i + 1);
            assert(cur.last() == rows@[i as int]);
            proof {
                let gc = group_entries(pre, SettingGroup::Curve);
                let gr = group_entries(pre, SettingGroup::Raw);
                assert(gc.push((rows@[i as int].1, c)).drop_last() =~= gc);
                assert(gr.push((rows@[i as int].1, c)).drop_last() =~= gr);
            }
            match group {
                SettingGroup::Curve => {
                    curve.insert(key, c);
                },
                SettingGroup::Raw => {
                    raw.insert(key, c);
                },
            }
            i = i + 1;
        }
        assert(rows@.subrange(0, rows@.len() as int) =~= rows@);
        DefaultSettings { curve_settings: curve, raw_accel_settings: raw }
    }
}

} // verus!
