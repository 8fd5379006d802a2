//! Rules on the drivetrain.

use vstd::prelude::*;
use vstd::string::*;
use crate::regulations::{
    banned, conclude, labelled, push_banned, reports, Category, CheckError, Matching,
};
use crate::specs::Car;
use crate::text::texts;

verus! {

/// Banned drivetrain types. A field left out is not checked.
#[derive(Debug)]
pub struct Drivetrain {
    pub banned_types: Option<Vec<String>>,
}

impl Drivetrain {
    /// One reason for each banned type that occurs in the record's drive
    /// type, whatever the case of either.
    pub open spec fn reasons(&self, car: &Car) -> Seq<Seq<char>> {
        banned(
            self.banned_types,
            Matching::Within,
            car.drivetrain_type@,
            "illegal drive type "@ + car.drivetrain_type@,
        )
    }

    /// Holds the record against the drivetrain rules and reports every one
    /// that it violates.
    pub fn check_car(&self, car: &Car) -> (r: Result<(), CheckError>)
        ensures
            reports(r, Category::Drivetrain, self.reasons(car)),
    {
        let mut errs: Vec<String> = Vec::new();
        assert(texts(errs@) =~= Seq::<Seq<char>>::empty());
        push_banned(
            &mut errs,
            &self.banned_types,
            Matching::Within,
            car.drivetrain_type.as_str(),
            labelled("illegal drive type ", car.drivetrain_type.as_str()),
        );
        conclude(Category::Drivetrain, errs)
    }
}

} // verus!
