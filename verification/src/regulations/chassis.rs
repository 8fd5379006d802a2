//! Rules on the chassis.

use vstd::prelude::*;
use vstd::string::*;
use crate::regulations::{
    banned, conclude, labelled, push_banned, reports, Category, CheckError, Matching,
};
use crate::specs::Car;
use crate::text::texts;

verus! {

/// Banned chassis materials. A field left out is not checked.
#[derive(Debug)]
pub struct Chassis {
    pub banned_materials: Option<Vec<String>>,
}

impl Chassis {
    /// One reason for each banned material that is the record's chassis
    /// material, white space around either aside.
    pub open spec fn reasons(&self, car: &Car) -> Seq<Seq<char>> {
        banned(
            self.banned_materials,
            Matching::Trimmed,
            car.chassis_material@,
            "banned chassis material "@ + car.chassis_material@,
        )
    }

    /// Holds the record against the chassis rules and reports every one
    /// that it violates.
    pub fn check_car(&self, car: &Car) -> (r: Result<(), CheckError>)
        ensures
            reports(r, Category::Chassis, self.reasons(car)),
    {
        let mut errs: Vec<String> = Vec::new();
        assert(texts(errs@) =~= Seq::<Seq<char>>::empty());
        push_banned(
            &mut errs,
            &self.banned_materials,
            Matching::Trimmed,
            car.chassis_material.as_str(),
            labelled("banned chassis material ", car.chassis_material.as_str()),
        );
        conclude(Category::Chassis, errs)
    }
}

} // verus!
