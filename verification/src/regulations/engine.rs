//! Rules on the engine.

use vstd::prelude::*;
use vstd::string::*;
use crate::number::{decimal_text, nat_text, Decimal};
use crate::regulations::{
    above, banned, below, conclude, count_matches, exceeds, is_above, is_below, is_over, labelled,
    labelled_count, labelled_decimal, match_count, push_banned, push_when, reason_if, reports,
    Category, CheckError, Matching,
};
use crate::specs::Car;
use crate::text::texts;

verus! {

/// Bounds and banned parts for the engine. A field left out is not checked.
#[derive(Debug)]
pub struct Engine {
    pub min_year: Option<usize>,
    pub max_year: Option<usize>,
    pub max_cylinders: Option<usize>,
    pub turbo_max_cylinders: Option<usize>,
    pub octane: Option<Decimal>,
    pub fuel_type: Option<Vec<String>>,
    pub max_displacement: Option<usize>,
    pub max_stroke: Option<Decimal>,
    pub max_bore: Option<Decimal>,
    pub max_intake_valves: Option<usize>,
    pub max_exhaust_valves: Option<usize>,
    pub max_total_valves: Option<usize>,
    pub max_compression: Option<Decimal>,
    pub max_rpm: Option<usize>,
    pub catalytic_converter_banned: Option<Vec<String>>,
    pub intake_banned: Option<Vec<String>>,
    pub headers_banned: Option<Vec<String>>,
}

impl Engine {
    /// Whether the record's fuel is outside a declared list of allowed
    /// fuels.
    pub open spec fn fuel_refused(&self, car: &Car) -> bool {
        self.fuel_type matches Some(allowed) && match_count(
            texts(allowed@),
            Matching::TrimmedEntry,
            car.fuel_type@,
        ) == 0
    }

    /// Every violated engine rule, in the order in which the rules are
    /// declared.
    pub open spec fn reasons(&self, car: &Car) -> Seq<Seq<char>> {
        Seq::<Seq<char>>::empty()
            .add(reason_if(
                below(car.engine_year as int, self.min_year),
                "engine year "@ + nat_text(car.engine_year as nat),
            ))
            .add(reason_if(
                above(car.engine_year as int, self.max_year),
                "engine year "@ + nat_text(car.engine_year as nat),
            ))
            .add(reason_if(
                above(car.cylinder_count as int, self.max_cylinders),
                "cylinder count "@ + nat_text(car.cylinder_count as nat),
            ))
            .add(reason_if(
                car.has_turbo() && above(car.cylinder_count as int, self.turbo_max_cylinders),
                "turbo_max_cylinders"@,
            ))
            .add(reason_if(
                exceeds(car.octane, self.octane),
                "fuel octane "@ + decimal_text(car.octane.units()),
            ))
            .add(reason_if(
                self.fuel_refused(car),
                "illegal fuel type "@ + car.fuel_type@,
            ))
            .add(reason_if(
                above(car.displacement as int, self.max_displacement),
                "displacement "@ + nat_text(car.displacement as nat),
            ))
            .add(reason_if(
                exceeds(car.stroke, self.max_stroke),
                "stroke "@ + decimal_text(car.stroke.units()),
            ))
            .add(reason_if(
                exceeds(car.bore, self.max_bore),
                "bore "@ + decimal_text(car.bore.units()),
            ))
            .add(reason_if(
                above(car.intake_valves as int, self.max_intake_valves),
                "intake valves "@ + nat_text(car.intake_valves as nat),
            ))
            .add(reason_if(
                above(car.exhaust_valves as int, self.max_exhaust_valves),
                "exhaust valves "@ + nat_text(car.exhaust_valves as nat),
            ))
            .add(reason_if(
                above(car.intake_valves + car.exhaust_valves, self.max_total_valves),
                "total valves "@ + nat_text((car.intake_valves + car.exhaust_valves) as nat),
            ))
            .add(reason_if(
                exceeds(car.compression, self.max_compression),
                "compression "@ + decimal_text(car.compression.units()),
            ))
            .add(reason_if(
                above(car.rpm as int, self.max_rpm),
                "max rpm "@ + nat_text(car.rpm as nat),
            ))
            .add(banned(
                self.catalytic_converter_banned,
                Matching::Within,
                car.catalytic_converter@,
                "illegal cat conv "@ + car.catalytic_converter@,
            ))
            .add(banned(
                self.intake_banned,
                Matching::Within,
                car.intake_type@,
                "illegal intake "@ + car.intake_type@,
            ))
            .add(banned(
                self.headers_banned,
                Matching::Within,
                car.headers@,
                "illegal headers "@ + car.headers@,
            ))
    }

    /// Holds the record against the engine rules and reports every one that
    /// it violates.
    #[verifier::rlimit(60)]
    pub fn check_car(&self, car: &Car) -> (r: Result<(), CheckError>)
        ensures
            reports(r, Category::Engine, self.reasons(car)),
    {
        let mut errs: Vec<String> = Vec::new();
        assert(texts(errs@) =~= Seq::<Seq<char>>::empty());
        let year = car.engine_year;
        push_when(
            &mut errs,
            is_below(year, self.min_year),
            labelled_count("engine year ", year as u128),
        );
        push_when(
            &mut errs,
            is_above(year as u128, self.max_year),
            labelled_count("engine year ", year as u128),
        );
        push_when(
            &mut errs,
            is_above(car.cylinder_count as u128, self.max_cylinders),
            labelled_count("cylinder count ", car.cylinder_count as u128),
        );
        push_when(
            &mut errs,
            car.has_turbo() && is_above(car.cylinder_count as u128, self.turbo_max_cylinders),
            String::from_str("turbo_max_cylinders"),
        );
        push_when(
            &mut errs,
            is_over(car.octane, self.octane),
            labelled_decimal("fuel octane ", car.octane),
        );
        let fuel_refused = match &self.fuel_type {
            Some(allowed) => count_matches(
                allowed,
                Matching::TrimmedEntry,
                car.fuel_type.as_str(),
            ) == 0,
            None => false,
        };
        push_when(
            &mut errs,
            fuel_refused,
            labelled("illegal fuel type ", car.fuel_type.as_str()),
        );
        push_when(
            &mut errs,
            is_above(car.displacement as u128, self.max_displacement),
            labelled_count("displacement ", car.displacement as u128),
        );
        push_when(
            &mut errs,
            is_over(car.stroke, self.max_stroke),
            labelled_decimal("stroke ", car.stroke),
        );
        push_when(&mut errs, is_over(car.bore, self.max_bore), labelled_decimal("bore ", car.bore));
        push_when(
            &mut errs,
            is_above(car.intake_valves as u128, self.max_intake_valves),
            labelled_count("intake valves ", car.intake_valves as u128),
        );
        push_when(
            &mut errs,
            is_above(car.exhaust_valves as u128, self.max_exhaust_valves),
            labelled_count("exhaust valves ", car.exhaust_valves as u128),
        );
        let valves: u128 = car.intake_valves as u128 + car.exhaust_valves as u128;
        push_when(
            &mut errs,
            is_above(valves, self.max_total_valves),
            labelled_count("total valves ", valves),
        );
        push_when(
            &mut errs,
            is_over(car.compression, self.max_compression),
            labelled_decimal("compression ", car.compression),
        );
        push_when(
            &mut errs,
            is_above(car.rpm as u128, self.max_rpm),
            labelled_count("max rpm ", car.rpm as u128),
        );
        push_banned(
            &mut errs,
            &self.catalytic_converter_banned,
            Matching::Within,
            car.catalytic_converter.as_str(),
            labelled("illegal cat conv ", car.catalytic_converter.as_str()),
        );
        push_banned(
            &mut errs,
            &self.intake_banned,
            Matching::Within,
            car.intake_type.as_str(),
            labelled("illegal intake ", car.intake_type.as_str()),
        );
        push_banned(
            &mut errs,
            &self.headers_banned,
            Matching::Within,
            car.headers.as_str(),
            labelled("illegal headers ", car.headers.as_str()),
        );
        conclude(Category::Engine, errs)
    }
}

} // verus!
