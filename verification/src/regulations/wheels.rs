//! Rules on wheels and tyres.

use vstd::prelude::*;
use vstd::string::*;
use crate::number::nat_text;
use crate::regulations::{
    above, banned, conclude, is_above, labelled, labelled_count, push_banned, push_when,
    reason_if, reports, Category, CheckError, Matching,
};
use crate::specs::Car;
use crate::text::texts;

verus! {

/// Bounds on the wheels of each axle, and banned tyre compounds and rim
/// materials. A field left out is not checked.
#[derive(Debug)]
pub struct Wheels {
    pub must_match: Option<bool>,
    pub front_max_width: Option<usize>,
    pub front_max_profile: Option<usize>,
    pub front_max_rim: Option<usize>,
    pub front_wheel_diameter: Option<usize>,
    pub rear_max_width: Option<usize>,
    pub rear_max_profile: Option<usize>,
    pub rear_max_rim: Option<usize>,
    pub rear_wheel_diameter: Option<usize>,
    pub banned_compounds: Option<Vec<String>>,
    pub banned_rim_materials: Option<Vec<String>>,
}

impl Wheels {
    /// Whether front and rear wheels are asked to match.
    pub open spec fn asks_match(&self) -> bool {
        self.must_match == Some(true)
    }

    /// Every violated wheel rule, in the order in which the rules are
    /// declared. A compound is banned whatever its case; a rim material
    /// must be listed as it is written.
    pub open spec fn reasons(&self, car: &Car) -> Seq<Seq<char>> {
        Seq::<Seq<char>>::empty()
            .add(reason_if(
                self.asks_match() && !car.wheels_match(),
                "wheels dont match"@,
            ))
            .add(reason_if(
                above(car.wheels_front_width as int, self.front_max_width),
                "front tire width "@ + nat_text(car.wheels_front_width as nat),
            ))
            .add(reason_if(
                above(car.wheels_front_profile as int, self.front_max_profile),
                "front tire profile "@ + nat_text(car.wheels_front_profile as nat),
            ))
            .add(reason_if(
                above(car.wheels_front_rim as int, self.front_max_rim),
                "front tire rim "@ + nat_text(car.wheels_front_rim as nat),
            ))
            .add(reason_if(
                above(car.wheels_front_diameter as int, self.front_wheel_diameter),
                "front tire diameter "@ + nat_text(car.wheels_front_diameter as nat),
            ))
            .add(reason_if(
                above(car.wheels_rear_width as int, self.rear_max_width),
                "rear tire width "@ + nat_text(car.wheels_rear_width as nat),
            ))
            .add(reason_if(
                above(car.wheels_rear_profile as int, self.rear_max_profile),
                "rear tire profile "@ + nat_text(car.wheels_rear_profile as nat),
            ))
            .add(reason_if(
                above(car.wheels_rear_rim as int, self.rear_max_rim),
                "rear tire rim "@ + nat_text(car.wheels_rear_rim as nat),
            ))
            .add(reason_if(
                above(car.wheels_rear_diameter as int, self.rear_wheel_diameter),
                "rear tire diameter "@ + nat_text(car.wheels_rear_diameter as nat),
            ))
            .add(banned(
                self.banned_compounds,
                Matching::AnyCase,
                car.wheels_compound@,
                "banned compound "@ + car.wheels_compound@,
            ))
            .add(banned(
                self.banned_rim_materials,
                Matching::Trimmed,
                car.wheels_rim_material@,
                "banned rim material "@ + car.wheels_rim_material@,
            ))
    }

    /// Holds the record against the wheel rules and reports every one that
    /// it violates.
    pub fn check_car(&self, car: &Car) -> (r: Result<(), CheckError>)
        ensures
            reports(r, Category::Wheels, self.reasons(car)),
    {
        let mut errs: Vec<String> = Vec::new();
        assert(texts(errs@) =~= Seq::<Seq<char>>::empty());
        let asks_match = match self.must_match {
            Some(b) => b,
            None => false,
        };
        push_when(
            &mut errs,
            asks_match && !car.wheels_match(),
            String::from_str("wheels dont match"),
        );
        push_when(
            &mut errs,
            is_above(car.wheels_front_width as u128, self.front_max_width),
            labelled_count("front tire width ", car.wheels_front_width as u128),
        );
        push_when(
            &mut errs,
            is_above(car.wheels_front_profile as u128, self.front_max_profile),
            labelled_count("front tire profile ", car.wheels_front_profile as u128),
        );
        push_when(
            &mut errs,
            is_above(car.wheels_front_rim as u128, self.front_max_rim),
            labelled_count("front tire rim ", car.wheels_front_rim as u128),
        );
        push_when(
            &mut errs,
            is_above(car.wheels_front_diameter as u128, self.front_wheel_diameter),
            labelled_count("front tire diameter ", car.wheels_front_diameter as u128),
        );
        push_when(
            &mut errs,
            is_above(car.wheels_rear_width as u128, self.rear_max_width),
            labelled_count("rear tire width ", car.wheels_rear_width as u128),
        );
        push_when(
            &mut errs,
            is_above(car.wheels_rear_profile as u128, self.rear_max_profile),
            labelled_count("rear tire profile ", car.wheels_rear_profile as u128),
        );
        push_when(
            &mut errs,
            is_above(car.wheels_rear_rim as u128, self.rear_max_rim),
            labelled_count("rear tire rim ", car.wheels_rear_rim as u128),
        );
        push_when(
            &mut errs,
            is_above(car.wheels_rear_diameter as u128, self.rear_wheel_diameter),
            labelled_count("rear tire diameter ", car.wheels_rear_diameter as u128),
        );
        push_banned(
            &mut errs,
            &self.banned_compounds,
            Matching::AnyCase,
            car.wheels_compound.as_str(),
            labelled("banned compound ", car.wheels_compound.as_str()),
        );
        push_banned(
            &mut errs,
            &self.banned_rim_materials,
            Matching::Trimmed,
            car.wheels_rim_material.as_str(),
            labelled("banned rim material ", car.wheels_rim_material.as_str()),
        );
        conclude(Category::Wheels, errs)
    }
}

} // verus!
