//! The vehicle record: its typed attributes and the raw fields they were
//! read from.

use vstd::prelude::*;
use vstd::string::*;
use crate::number::{parse_whole, reads_number, units_of, whole_of, Decimal};
use crate::text::{same_text, trim, trimmed};

verus! {

/// Why a record could not be read.
#[derive(Debug, Clone, PartialEq, Eq)]
pub enum ImportError {
    /// The source holds no record.
    Unknown,
    /// A column that the record needs is not among the raw fields.
    MissingColumn(String),
    /// A text that should write a number does not.
    NotANumber(String),
}

/// One field of the source: the column's name and the text found under it.
#[derive(Debug, Clone, PartialEq, Eq)]
pub struct RawField {
    pub name: String,
    pub value: String,
}

/// A raw field as the contracts see it.
pub struct Field {
    pub name: Seq<char>,
    pub value: Seq<char>,
}

impl View for RawField {
    type V = Field;

    open spec fn view(&self) -> Field {
        Field { name: self.name@, value: self.value@ }
    }
}

/// The fields of one record as the source gave them, in column order.
#[derive(Debug, Clone, PartialEq, Eq)]
pub struct RawCar {
    pub fields: Vec<RawField>,
}

impl View for RawCar {
    type V = Seq<Field>;

    open spec fn view(&self) -> Seq<Field> {
        self.fields@.map_values(|f: RawField| f@)
    }
}

/// A vehicle: what the rules are held against.
#[derive(Debug)]
pub struct Car {
    // Basic information
    pub car_name: String,
    pub model_name: String,
    pub model_year: usize,
    pub wheelbase: usize,
    // Stats
    pub drivability_rating: Decimal,
    pub sportiness_rating: Decimal,
    pub reliability_rating: Decimal,
    pub safety_rating: Decimal,
    pub practicality_rating: Decimal,
    pub comfort_rating: Decimal,
    pub prestige_rating: Decimal,
    pub offroad_rating: Decimal,
    pub cost: Decimal,
    pub service_cost: Decimal,
    pub fuel_economy: Decimal,
    // Engine
    pub engine_year: usize,
    pub cylinder_count: usize,
    pub aspiration: String,
    pub octane: Decimal,
    pub fuel_type: String,
    pub displacement: usize,
    pub stroke: Decimal,
    pub bore: Decimal,
    pub intake_valves: usize,
    pub exhaust_valves: usize,
    pub compression: Decimal,
    pub rpm: usize,
    pub catalytic_converter: String,
    pub intake_type: String,
    pub headers: String,
    // Wheels
    pub wheels_front_width: usize,
    pub wheels_front_profile: usize,
    pub wheels_front_rim: usize,
    pub wheels_front_diameter: usize,
    pub wheels_rear_width: usize,
    pub wheels_rear_profile: usize,
    pub wheels_rear_rim: usize,
    pub wheels_rear_diameter: usize,
    pub wheels_compound: String,
    pub wheels_rim_material: String,
    // Part information
    pub chassis_type: String,
    pub chassis_material: String,
    pub panel_material: String,
    pub front_suspension: String,
    pub rear_suspension: String,
    pub engine_placement: String,
    pub engine_orientation: String,
    pub drivetrain_type: String,
    pub model_body_quality: Decimal,
    pub model_chassis_quality: Decimal,
    pub model_body_techpool: Decimal,
    // Every field as the source gave it
    pub raw: RawCar,
}

/// The whole number that `s` writes, any fraction dropped: negative numbers
/// read as zero, as does an undefined one, and numbers beyond `usize` as
/// its largest value.
pub fn parse_int(s: &str) -> (r: Result<usize, ImportError>)
    ensures
        r is Ok <==> reads_number(s@),
        r matches Ok(v) ==> Some(v as int) == whole_of(s@, 0, usize::MAX as int),
        r matches Err(e) ==> e matches ImportError::NotANumber(t) && t@ == s@,
{
    match parse_whole(s, 0, usize::MAX as i128) {
        Some(v) => Ok(v as usize),
        None => Err(ImportError::NotANumber(String::from_str(s))),
    }
}

/// Why a record cannot be read, as the contracts see it.
pub enum ImportFault {
    Unknown,
    MissingColumn(Seq<char>),
    NotANumber(Seq<char>),
}

impl View for ImportError {
    type V = ImportFault;

    open spec fn view(&self) -> ImportFault {
        match self {
            ImportError::Unknown => ImportFault::Unknown,
            ImportError::MissingColumn(name) => ImportFault::MissingColumn(name@),
            ImportError::NotANumber(text) => ImportFault::NotANumber(text@),
        }
    }
}

/// What a column is read as.
pub enum Kind {
    Text,
    Whole,
    Decimal,
}

/// The text under the first field with this name, if there is one.
pub open spec fn column(fields: Seq<Field>, name: Seq<char>) -> Option<Seq<char>>
    decreases fields.len(),
{
    if fields.len() == 0 {
        None
    } else if fields[0].name == name {
        Some(fields[0].value)
    } else {
        column(fields.drop_first(), name)
    }
}

/// Why the column cannot be read as this kind, if it cannot: it is
/// missing, or it should write a number and does not.
pub open spec fn fault_in(fields: Seq<Field>, name: Seq<char>, kind: Kind) -> Option<ImportFault> {
    match column(fields, name) {
        None => Some(ImportFault::MissingColumn(name)),
        Some(text) => match kind {
            Kind::Text => None,
            Kind::Whole | Kind::Decimal => if reads_number(text) {
                None
            } else {
                Some(ImportFault::NotANumber(text))
            },
        },
    }
}

/// How far the reading of a record has come: the fields, and the first
/// fault met so far.
pub struct Reading {
    pub fields: Seq<Field>,
    pub fault: Option<ImportFault>,
}

impl Reading {
    /// Nothing read yet.
    pub open spec fn of(fields: Seq<Field>) -> Reading {
        Reading { fields, fault: None }
    }

    /// One more column read: a fault met earlier stands, else the fault in
    /// this column does.
    pub open spec fn need(self, name: Seq<char>, kind: Kind) -> Reading {
        Reading {
            fields: self.fields,
            fault: if self.fault is Some {
                self.fault
            } else {
                fault_in(self.fields, name, kind)
            },
        }
    }
}

/// The text under a column.
pub open spec fn text_in(fields: Seq<Field>, name: Seq<char>) -> Seq<char> {
    column(fields, name)->0
}

/// The whole number under a column: the fraction is dropped, negative
/// numbers read as zero, and numbers beyond `usize` as its largest value.
pub open spec fn whole_in(fields: Seq<Field>, name: Seq<char>) -> int {
    whole_of(column(fields, name)->0, 0, usize::MAX as int)->0
}

/// The quantity under a column, in units of ten to the power minus
/// eighteen.
pub open spec fn units_in(fields: Seq<Field>, name: Seq<char>) -> int {
    units_of(column(fields, name)->0)->0
}

proof fn lemma_column_skip(fields: Seq<Field>, name: Seq<char>, i: int)
    requires
        0 <= i <= fields.len(),
        forall|k: int| 0 <= k < i ==> (#[trigger] fields[k]).name != name,
    ensures
        column(fields, name) == column(fields.skip(i), name),
    decreases i,
{
    if i == 0 {
        assert(fields.skip(0) =~= fields);
    } else {
        assert(fields[0].name != name);
        assert forall|k: int| 0 <= k < i - 1 implies (#[trigger] fields.drop_first()[k]).name
            != name by {
            assert(fields.drop_first()[k] == fields[k + 1]);
        }
        lemma_column_skip(fields.drop_first(), name, i - 1);
        assert(fields.drop_first().skip(i - 1) =~= fields.skip(i));
    }
}

impl RawCar {
    /// The text under the first field with this name.
    pub fn get(&self, name: &str) -> (r: Option<&String>)
        ensures
            match r {
                Some(text) => column(self@, name@) == Some(text@),
                None => column(self@, name@) is None,
            },
    {
        let ghost all = self@;
        let mut i: usize = 0;
        while i < self.fields.len()
            invariant
                i <= self.fields.len(),
                all == self@,
                forall|k: int| 0 <= k < i ==> (#[trigger] all[k]).name != name@,
            decreases self.fields.len() - i,
        {
            if same_text(self.fields[i].name.as_str(), name) {
                proof {
                    lemma_column_skip(all, name@, i as int);
                    assert(all.skip(i as int)[0] == all[i as int]);
                }
                return Some(&self.fields[i].value);
            }
            i += 1;
        }
        proof {
            lemma_column_skip(all, name@, self.fields.len() as int);
        }
        None
    }

    /// The text under a column.
    pub fn text(&self, name: &str) -> (r: Result<String, ImportError>)
        ensures
            match r {
                Ok(text) => fault_in(self@, name@, Kind::Text) is None && text@ == text_in(
                    self@,
                    name@,
                ),
                Err(e) => fault_in(self@, name@, Kind::Text) == Some(e@),
            },
    {
        match self.get(name) {
            Some(text) => Ok(text.clone()),
            None => Err(ImportError::MissingColumn(String::from_str(name))),
        }
    }

    /// The whole number under a column.
    pub fn whole(&self, name: &str) -> (r: Result<usize, ImportError>)
        ensures
            match r {
                Ok(n) => fault_in(self@, name@, Kind::Whole) is None && n == whole_in(
                    self@,
                    name@,
                ),
                Err(e) => fault_in(self@, name@, Kind::Whole) == Some(e@),
            },
    {
        match self.get(name) {
            Some(text) => parse_int(text.as_str()),
            None => Err(ImportError::MissingColumn(String::from_str(name))),
        }
    }

    /// The decimal under a column.
    pub fn decimal(&self, name: &str) -> (r: Result<Decimal, ImportError>)
        ensures
            match r {
                Ok(d) => fault_in(self@, name@, Kind::Decimal) is None && d.units() == units_in(
                    self@,
                    name@,
                ),
                Err(e) => fault_in(self@, name@, Kind::Decimal) == Some(e@),
            },
    {
        match self.get(name) {
            Some(text) => match Decimal::parse(text.as_str()) {
                Some(d) => Ok(d),
                None => Err(ImportError::NotANumber(text.clone())),
            },
            None => Err(ImportError::MissingColumn(String::from_str(name))),
        }
    }
}

impl Car {
    /// The first column that cannot be read, if there is one, in the order
    /// in which the columns are consulted.
    pub open spec fn import_fault(fields: Seq<Field>) -> Option<ImportFault> {
        Reading::of(fields)
            .need("Car Name"@, Kind::Text)
            .need("Model Name"@, Kind::Text)
            .need("Model Year"@, Kind::Whole)
            .need("Wheelbase"@, Kind::Whole)
            .need("Drivability Rating"@, Kind::Decimal)
            .need("Sportiness Rating"@, Kind::Decimal)
            .need("Trim Reliability"@, Kind::Decimal)
            .need("Safety Rating"@, Kind::Decimal)
            .need("Practicality Rating"@, Kind::Decimal)
            .need("Comfort Rating"@, Kind::Decimal)
            .need("Prestige Rating"@, Kind::Decimal)
            .need("Offroad Rating"@, Kind::Decimal)
            .need("Trim Cost"@, Kind::Decimal)
            .need("Trim Service Costs"@, Kind::Decimal)
            .need("Trim Economy"@, Kind::Decimal)
            .need("Variant Year"@, Kind::Whole)
            .need("Cylinder Count"@, Kind::Whole)
            .need("Aspiration"@, Kind::Text)
            .need("Fuel Octane"@, Kind::Decimal)
            .need("Fuel System Type"@, Kind::Text)
            .need("Variant Displacement"@, Kind::Whole)
            .need("Variant Stroke"@, Kind::Decimal)
            .need("Variant Bore"@, Kind::Decimal)
            .need("Intake Valves"@, Kind::Whole)
            .need("Exhaust Valves"@, Kind::Whole)
            .need("Compression"@, Kind::Decimal)
            .need("Max RPM"@, Kind::Whole)
            .need("Catalytic Converter"@, Kind::Text)
            .need("Intake"@, Kind::Text)
            .need("Headers"@, Kind::Text)
            .need("Front Tyre Width"@, Kind::Whole)
            .need("Front Tyre Profile"@, Kind::Whole)
            .need("Front Rim Size"@, Kind::Whole)
            .need("Front Wheel Diameter"@, Kind::Whole)
            .need("Rear Tyre Width"@, Kind::Whole)
            .need("Rear Tyre Profile"@, Kind::Whole)
            .need("Rear Rim Size"@, Kind::Whole)
            .need("Rear Wheel Diameter"@, Kind::Whole)
            .need("Tyre Compound"@, Kind::Text)
            .need("Rim Material"@, Kind::Text)
            .need("Chassis Type"@, Kind::Text)
            .need("Chassis Material"@, Kind::Text)
            .need("Panel Material"@, Kind::Text)
            .need("Front Suspension"@, Kind::Text)
            .need("Rear Suspension"@, Kind::Text)
            .need("Engine Placement"@, Kind::Text)
            .need("Engine Orientation"@, Kind::Text)
            .need("Drive Type"@, Kind::Text)
            .need("Model Body Quality"@, Kind::Decimal)
            .need("Model Chassis Quality"@, Kind::Decimal)
            .need("Model Body Techpool"@, Kind::Decimal)
            .fault
    }

    /// Whether each attribute holds what its column writes.
    pub open spec fn holds(&self, fields: Seq<Field>) -> bool {
        &&& self.car_name@ == text_in(fields, "Car Name"@)
        &&& self.model_name@ == text_in(fields, "Model Name"@)
        &&& self.model_year == whole_in(fields, "Model Year"@)
        &&& self.wheelbase == whole_in(fields, "Wheelbase"@)
        &&& self.drivability_rating.units() == units_in(fields, "Drivability Rating"@)
        &&& self.sportiness_rating.units() == units_in(fields, "Sportiness Rating"@)
        &&& self.reliability_rating.units() == units_in(fields, "Trim Reliability"@)
        &&& self.safety_rating.units() == units_in(fields, "Safety Rating"@)
        &&& self.practicality_rating.units() == units_in(fields, "Practicality Rating"@)
        &&& self.comfort_rating.units() == units_in(fields, "Comfort Rating"@)
        &&& self.prestige_rating.units() == units_in(fields, "Prestige Rating"@)
        &&& self.offroad_rating.units() == units_in(fields, "Offroad Rating"@)
        &&& self.cost.units() == units_in(fields, "Trim Cost"@)
        &&& self.service_cost.units() == units_in(fields, "Trim Service Costs"@)
        &&& self.fuel_economy.units() == units_in(fields, "Trim Economy"@)
        &&& self.engine_year == whole_in(fields, "Variant Year"@)
        &&& self.cylinder_count == whole_in(fields, "Cylinder Count"@)
        &&& self.aspiration@ == text_in(fields, "Aspiration"@)
        &&& self.octane.units() == units_in(fields, "Fuel Octane"@)
        &&& self.fuel_type@ == text_in(fields, "Fuel System Type"@)
        &&& self.displacement == whole_in(fields, "Variant Displacement"@)
        &&& self.stroke.units() == units_in(fields, "Variant Stroke"@)
        &&& self.bore.units() == units_in(fields, "Variant Bore"@)
        &&& self.intake_valves == whole_in(fields, "Intake Valves"@)
        &&& self.exhaust_valves == whole_in(fields, "Exhaust Valves"@)
        &&& self.compression.units() == units_in(fields, "Compression"@)
        &&& self.rpm == whole_in(fields, "Max RPM"@)
        &&& self.catalytic_converter@ == text_in(fields, "Catalytic Converter"@)
        &&& self.intake_type@ == text_in(fields, "Intake"@)
        &&& self.headers@ == text_in(fields, "Headers"@)
        &&& self.wheels_front_width == whole_in(fields, "Front Tyre Width"@)
        &&& self.wheels_front_profile == whole_in(fields, "Front Tyre Profile"@)
        &&& self.wheels_front_rim == whole_in(fields, "Front Rim Size"@)
        &&& self.wheels_front_diameter == whole_in(fields, "Front Wheel Diameter"@)
        &&& self.wheels_rear_width == whole_in(fields, "Rear Tyre Width"@)
        &&& self.wheels_rear_profile == whole_in(fields, "Rear Tyre Profile"@)
        &&& self.wheels_rear_rim == whole_in(fields, "Rear Rim Size"@)
        &&& self.wheels_rear_diameter == whole_in(fields, "Rear Wheel Diameter"@)
        &&& self.wheels_compound@ == text_in(fields, "Tyre Compound"@)
        &&& self.wheels_rim_material@ == text_in(fields, "Rim Material"@)
        &&& self.chassis_type@ == text_in(fields, "Chassis Type"@)
        &&& self.chassis_material@ == text_in(fields, "Chassis Material"@)
        &&& self.panel_material@ == text_in(fields, "Panel Material"@)
        &&& self.front_suspension@ == text_in(fields, "Front Suspension"@)
        &&& self.rear_suspension@ == text_in(fields, "Rear Suspension"@)
        &&& self.engine_placement@ == text_in(fields, "Engine Placement"@)
        &&& self.engine_orientation@ == text_in(fields, "Engine Orientation"@)
        &&& self.drivetrain_type@ == text_in(fields, "Drive Type"@)
        &&& self.model_body_quality.units() == units_in(fields, "Model Body Quality"@)
        &&& self.model_chassis_quality.units() == units_in(fields, "Model Chassis Quality"@)
        &&& self.model_body_techpool.units() == units_in(fields, "Model Body Techpool"@)
        &&& self.raw@ == fields
    }

    /// Reads the typed attributes of a record from its raw fields, which
    /// the record keeps. Fails on the first column, in the order in which
    /// they are consulted, that is missing or does not write the number
    /// it should.
    pub fn from_raw(raw: RawCar) -> (r: Result<Car, ImportError>)
        ensures
            match r {
                Ok(car) => Car::import_fault(raw@) is None && car.holds(raw@),
                Err(e) => Car::import_fault(raw@) == Some(e@),
            },
    {
        let car_name = raw.text("Car Name")?;
        let model_name = raw.text("Model Name")?;
        let model_year = raw.whole("Model Year")?;
        let wheelbase = raw.whole("Wheelbase")?;
        let drivability_rating = raw.decimal("Drivability Rating")?;
        let sportiness_rating = raw.decimal("Sportiness Rating")?;
        let reliability_rating = raw.decimal("Trim Reliability")?;
        let safety_rating = raw.decimal("Safety Rating")?;
        let practicality_rating = raw.decimal("Practicality Rating")?;
        let comfort_rating = raw.decimal("Comfort Rating")?;
        let prestige_rating = raw.decimal("Prestige Rating")?;
        let offroad_rating = raw.decimal("Offroad Rating")?;
        let cost = raw.decimal("Trim Cost")?;
        let service_cost = raw.decimal("Trim Service Costs")?;
        let fuel_economy = raw.decimal("Trim Economy")?;
        let engine_year = raw.whole("Variant Year")?;
        let cylinder_count = raw.whole("Cylinder Count")?;
        let aspiration = raw.text("Aspiration")?;
        let octane = raw.decimal("Fuel Octane")?;
        let fuel_type = raw.text("Fuel System Type")?;
        let displacement = raw.whole("Variant Displacement")?;
        let stroke = raw.decimal("Variant Stroke")?;
        let bore = raw.decimal("Variant Bore")?;
        let intake_valves = raw.whole("Intake Valves")?;
        let exhaust_valves = raw.whole("Exhaust Valves")?;
        let compression = raw.decimal("Compression")?;
        let rpm = raw.whole("Max RPM")?;
        let catalytic_converter = raw.text("Catalytic Converter")?;
        let intake_type = raw.text("Intake")?;
        let headers = raw.text("Headers")?;
        let wheels_front_width = raw.whole("Front Tyre Width")?;
        let wheels_front_profile = raw.whole("Front Tyre Profile")?;
        let wheels_front_rim = raw.whole("Front Rim Size")?;
        let wheels_front_diameter = raw.whole("Front Wheel Diameter")?;
        let wheels_rear_width = raw.whole("Rear Tyre Width")?;
        let wheels_rear_profile = raw.whole("Rear Tyre Profile")?;
        let wheels_rear_rim = raw.whole("Rear Rim Size")?;
        let wheels_rear_diameter = raw.whole("Rear Wheel Diameter")?;
        let wheels_compound = raw.text("Tyre Compound")?;
        let wheels_rim_material = raw.text("Rim Material")?;
        let chassis_type = raw.text("Chassis Type")?;
        let chassis_material = raw.text("Chassis Material")?;
        let panel_material = raw.text("Panel Material")?;
        let front_suspension = raw.text("Front Suspension")?;
        let rear_suspension = raw.text("Rear Suspension")?;
        let engine_placement = raw.text("Engine Placement")?;
        let engine_orientation = raw.text("Engine Orientation")?;
        let drivetrain_type = raw.text("Drive Type")?;
        let model_body_quality = raw.decimal("Model Body Quality")?;
        let model_chassis_quality = raw.decimal("Model Chassis Quality")?;
        let model_body_techpool = raw.decimal("Model Body Techpool")?;
        Ok(
            Car {
                car_name,
                model_name,
                model_year,
                wheelbase,
                drivability_rating,
                sportiness_rating,
                reliability_rating,
                safety_rating,
                practicality_rating,
                comfort_rating,
                prestige_rating,
                offroad_rating,
                cost,
                service_cost,
                fuel_economy,
                engine_year,
                cylinder_count,
                aspiration,
                octane,
                fuel_type,
                displacement,
                stroke,
                bore,
                intake_valves,
                exhaust_valves,
                compression,
                rpm,
                catalytic_converter,
                intake_type,
                headers,
                wheels_front_width,
                wheels_front_profile,
                wheels_front_rim,
                wheels_front_diameter,
                wheels_rear_width,
                wheels_rear_profile,
                wheels_rear_rim,
                wheels_rear_diameter,
                wheels_compound,
                wheels_rim_material,
                chassis_type,
                chassis_material,
                panel_material,
                front_suspension,
                rear_suspension,
                engine_placement,
                engine_orientation,
                drivetrain_type,
                model_body_quality,
                model_chassis_quality,
                model_body_techpool,
                raw,
            },
        )
    }

    /// Whether the engine is fed by forced induction: its aspiration is
    /// anything but "Naturally Aspirated".
    pub open spec fn spec_has_turbo(&self) -> bool {
        trimmed(self.aspiration@) != "Naturally Aspirated"@
    }

    /// Whether the engine is fed by forced induction.
    #[verifier::when_used_as_spec(spec_has_turbo)]
    pub fn has_turbo(&self) -> (b: bool)
        ensures
            b == self.spec_has_turbo(),
    {
        let t = trim(self.aspiration.as_str());
        !same_text(t.as_str(), "Naturally Aspirated")
    }

    /// Whether the front and rear wheels have the same dimensions.
    pub open spec fn spec_wheels_match(&self) -> bool {
        &&& self.wheels_front_width == self.wheels_rear_width
        &&& self.wheels_front_profile == self.wheels_rear_profile
        &&& self.wheels_front_rim == self.wheels_rear_rim
        &&& self.wheels_front_diameter == self.wheels_rear_diameter
    }

    /// Whether the front and rear wheels have the same dimensions.
    #[verifier::when_used_as_spec(spec_wheels_match)]
    pub fn wheels_match(&self) -> (b: bool)
        ensures
            b == self.spec_wheels_match(),
    {
        self.wheels_front_width == self.wheels_rear_width && self.wheels_front_profile
            == self.wheels_rear_profile && self.wheels_front_rim == self.wheels_rear_rim
            && self.wheels_front_diameter == self.wheels_rear_diameter
    }
}

} // verus!
