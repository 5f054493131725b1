//! The configurations of the default traversal models, and what their
//! builders decide. Reading files and building the models themselves is
//! left to the caller.

use vstd::prelude::*;
use vstd::string::StringExecFns;

verus! {

/// Why a traversal model could not be built.
#[derive(Debug)]
pub enum TraversalModelError {
    BuildError(String),
}

/// The configuration of the distance model: the unit of its state, by
/// name, and whether it keeps the distance of the whole trip.
#[derive(Debug)]
pub struct DistanceTraversalConfig {
    pub model_type: String,
    pub distance_unit: Option<String>,
    pub include_trip_distance: Option<bool>,
}

/// The configuration of the grade model: the file with one grade for each
/// edge id, and the unit of the grades, by name.
#[derive(Debug)]
pub struct GradeConfiguration {
    pub grade_input_file: String,
    pub grade_unit: String,
}

/// The configuration of the speed model: the file with one speed for each
/// edge id, and the unit that the speeds were recorded in, by name.
#[derive(Debug)]
pub struct SpeedConfiguration {
    pub model_type: String,
    pub speed_table_input_file: String,
    pub speed_unit: String,
}

/// The configuration of the time model: the unit of its state, by name,
/// and whether it keeps the time of the whole trip.
#[derive(Debug)]
pub struct TimeTraversalConfig {
    pub time_unit: String,
    pub include_trip_time: Option<bool>,
}

/// The configuration of the energy model: one file for each vehicle, and
/// whether the vehicles keep the energy of the whole trip.
#[derive(Debug)]
pub struct EnergyModelBuilderConfig {
    pub vehicle_input_files: Vec<String>,
    pub include_trip_energy: Option<bool>,
}

/// Builds the speed model from a [`SpeedConfiguration`].
#[derive(Clone, Copy, Debug, Default)]
pub struct SpeedTraversalBuilder {}

/// Builds the temperature model.
#[derive(Clone, Copy, Debug, Default)]
pub struct TemperatureTraversalBuilder {}

/// Builds the turn delay model.
#[derive(Clone, Copy, Debug, Default)]
pub struct TurnDelayTraversalModelBuilder {}

impl TurnDelayTraversalModelBuilder {
    /// Whether the model keeps the time of the whole trip: as it is
    /// configured, and if nothing is configured, it does.
    pub fn include_trip_time(configured: Option<bool>) -> (b: bool)
        ensures
            b == match configured {
                Some(choice) => choice,
                None => true,
            },
    {
        match configured {
            Some(choice) => choice,
            None => true,
        }
    }
}

/// The kinds of vehicle that the energy model knows.
#[derive(Clone, Copy, Debug, PartialEq, Eq, Structural, Hash)]
pub enum VehicleKind {
    /// A combustion engine.
    Ice,
    /// A battery.
    Bev,
    /// A battery and a combustion engine.
    Phev,
}

/// The kind of vehicle that a name stands for.
pub open spec fn kind_named(name: Seq<char>) -> Option<VehicleKind> {
    if name == "ice"@ {
        Some(VehicleKind::Ice)
    } else if name == "bev"@ {
        Some(VehicleKind::Bev)
    } else if name == "phev"@ {
        Some(VehicleKind::Phev)
    } else {
        None
    }
}

/// What is said of a vehicle file that names a kind of vehicle that is not
/// known.
pub open spec fn unknown_kind(vehicle_file: Seq<char>, name: Seq<char>) -> Seq<char> {
    "unknown vehicle model type in '"@ + vehicle_file + "': "@ + name
}

/// Builds the energy model from an [`EnergyModelBuilderConfig`].
#[derive(Clone, Copy, Debug, Default)]
pub struct EnergyModelBuilder {}

impl EnergyModelBuilder {
    /// The kind of the vehicle that `vehicle_file` describes as of type
    /// `vehicle_type`: one of `ice`, `bev` and `phev`. Any other type is
    /// refused with `BuildError`.
    pub fn vehicle_kind(vehicle_file: &String, vehicle_type: &String) -> (r: Result<
        VehicleKind,
        TraversalModelError,
    >)
        ensures
            match kind_named(vehicle_type@) {
                Some(kind) => r == Ok::<VehicleKind, TraversalModelError>(kind),
                None => r matches Err(TraversalModelError::BuildError(message)) && message@
                    == unknown_kind(vehicle_file@, vehicle_type@),
            },
    {
        if *vehicle_type == "ice".to_string() {
            Ok(VehicleKind::Ice)
        } else if *vehicle_type == "bev".to_string() {
            Ok(VehicleKind::Bev)
        } else if *vehicle_type == "phev".to_string() {
            Ok(VehicleKind::Phev)
        } else {
            let mut message = "unknown vehicle model type in '".to_string();
            message.append(vehicle_file.as_str());
            message.append("': ");
            message.append(vehicle_type.as_str());
            Err(TraversalModelError::BuildError(message))
        }
    }

    /// Whether a vehicle keeps the energy of the whole trip: what the
    /// configuration of the model says goes before what the vehicle says of
    /// itself.
    pub fn include_trip_energy(config: &EnergyModelBuilderConfig, own: Option<bool>) -> (r: Option<
        bool,
    >)
        ensures
            r == match config.include_trip_energy {
                Some(choice) => Some(choice),
                None => own,
            },
    {
        match config.include_trip_energy {
            Some(choice) => Some(choice),
            None => own,
        }
    }
}

/// The names of a list, as sequences of characters.
pub open spec fn names_in(names: Seq<String>) -> Seq<Seq<char>> {
    names.map_values(|name: String| name@)
}

/// Whether `at` is the first position of `key` among the names.
pub open spec fn first_at(names: Seq<Seq<char>>, key: Seq<char>, at: int) -> bool {
    &&& 0 <= at < names.len()
    &&& names[at] == key
    &&& forall|j: int| 0 <= j < at ==> names[j] != key
}

/// Whether `key` is one of the names.
pub open spec fn is_named(names: Seq<Seq<char>>, key: Seq<char>) -> bool {
    exists|at: int| 0 <= at < names.len() && #[trigger] names[at] == key
}

/// The first `k` names, with a comma and a blank between them.
pub open spec fn listed(names: Seq<Seq<char>>, k: nat) -> Seq<char>
    decreases k,
{
    if k == 0 {
        Seq::empty()
    } else if k == 1 {
        names[0]
    } else {
        listed(names, (k - 1) as nat) + ", "@ + names[k - 1]
    }
}

/// What is said of a model that is asked for by a name that is not known.
pub open spec fn unknown_model(names: Seq<Seq<char>>, key: Seq<char>) -> Seq<char> {
    "unknown traversal model name '"@ + key + "', must be one of: ["@ + listed(names, names.len())
        + "]"@
}

/// Whether the model asked for at position `k` is the first whose name is
/// not known, and `message` says so.
pub open spec fn refused_at(
    names: Seq<Seq<char>>,
    asked: Seq<Seq<char>>,
    k: int,
    message: Seq<char>,
) -> bool {
    &&& 0 <= k < asked.len()
    &&& !is_named(names, asked[k])
    &&& forall|j: int| 0 <= j < k ==> is_named(names, #[trigger] asked[j])
    &&& message == unknown_model(names, asked[k])
}

/// Whether `r` is the choice of builders for the models that are asked
/// for: all of them, in order, if none is asked for; else the first of
/// each name, in the order of the asking; or the refusal of the first name
/// that is not known.
pub open spec fn selects(
    builders: Seq<String>,
    models: Option<&Vec<String>>,
    r: Result<Vec<usize>, TraversalModelError>,
) -> bool {
    match models {
        None => r matches Ok(chosen) && chosen@.len() == builders.len() && forall|i: int|
            0 <= i < chosen@.len() ==> #[trigger] chosen@[i] == i,
        Some(asked) => match r {
            Ok(chosen) => chosen@.len() == asked@.len() && forall|i: int|
                0 <= i < asked@.len() ==> first_at(
                    names_in(builders),
                    asked@[i]@,
                    #[trigger] chosen@[i] as int,
                ),
            Err(TraversalModelError::BuildError(message)) => exists|k: int|
                #[trigger] refused_at(names_in(builders), names_in(asked@), k, message@),
        },
    }
}

/// Combines traversal models: it knows the builders of the models by their
/// names, in the order in which they were given.
#[derive(Debug)]
pub struct CombinedTraversalBuilder {
    pub builders: Vec<String>,
}

impl CombinedTraversalBuilder {
    /// The builder that combines the models of the given names.
    pub fn new(builders: Vec<String>) -> (r: CombinedTraversalBuilder)
        ensures
            r.builders == builders,
    {
        CombinedTraversalBuilder { builders }
    }

    /// The position of the builder called `key`: the first of that name.
    pub fn position(&self, key: &String) -> (r: Option<usize>)
        ensures
            match r {
                Some(at) => first_at(names_in(self.builders@), key@, at as int),
                None => !is_named(names_in(self.builders@), key@),
            },
    {
        let ghost names = names_in(self.builders@);
        let mut i: usize = 0;
        while i < self.builders.len()
            invariant
                i <= self.builders.len(),
                names == names_in(self.builders@),
                forall|j: int| 0 <= j < i ==> names[j] != key@,
            decreases self.builders.len() - i,
        {
            assert(names[i as int] == self.builders@[i as int]@);
            if self.builders[i] == *key {
                return Some(i);
            }
            i += 1;
        }
        None
    }

    /// The names of the builders, with a comma and a blank between them.
    pub fn names(&self) -> (text: String)
        ensures
            text@ == listed(names_in(self.builders@), self.builders@.len()),
    {
        let ghost names = names_in(self.builders@);
        let mut text = String::new();
        let mut i: usize = 0;
        while i < self.builders.len()
            invariant
                i <= self.builders.len(),
                names == names_in(self.builders@),
                text@ == listed(names, i as nat),
            decreases self.builders.len() - i,
        {
            assert(names[i as int] == self.builders@[i as int]@);
            let ghost before = text@;
            if i > 0 {
                text.append(", ");
            }
            text.append(self.builders[i].as_str());
            assert(text@ =~= listed(names, (i + 1) as nat));
            i += 1;
        }
        text
    }

    /// The builders to run, by their positions: all of them, in order, if
    /// no models are asked for; else the builder of each model that is
    /// asked for, in the order of the asking. The first name that is not
    /// known is refused with `BuildError`.
    pub fn select(&self, models: Option<&Vec<String>>) -> (r: Result<
        Vec<usize>,
        TraversalModelError,
    >)
        ensures
            selects(self.builders@, models, r),
    {
        let ghost names = names_in(self.builders@);
        let mut chosen: Vec<usize> = Vec::new();
        match models {
            None => {
                let mut i: usize = 0;
                while i < self.builders.len()
                    invariant
                        i <= self.builders.len(),
                        chosen@.len() == i,
                        forall|j: int| 0 <= j < i ==> #[trigger] chosen@[j] == j,
                    decreases self.builders.len() - i,
                {
                    chosen.push(i);
                    i += 1;
                }
                Ok(chosen)
            },
            Some(asked) => {
                let mut k: usize = 0;
                while k < asked.len()
                    invariant
                        k <= asked.len(),
                        models == Some(asked),
                        names == names_in(self.builders@),
                        chosen@.len() == k,
                        forall|i: int|
                            0 <= i < k ==> first_at(names, asked@[i]@, #[trigger] chosen@[i] as int),
                    decreases asked.len() - k,
                {
                    match self.position(&asked[k]) {
                        Some(at) => {
                            chosen.push(at);
                        },
                        None => {
                            let mut message = "unknown traversal model name '".to_string();
                            message.append(asked[k].as_str());
                            message.append("', must be one of: [");
                            let valid = self.names();
                            message.append(valid.as_str());
                            message.append("]");
                            proof {
                                assert(message@ =~= unknown_model(names, asked@[k as int]@));
                                let wanted = names_in(asked@);
                                assert(wanted[k as int] == asked@[k as int]@);
                                assert forall|j: int| 0 <= j < k implies is_named(
                                    names,
                                    #[trigger] wanted[j],
                                ) by {
                                    assert(first_at(names, asked@[j]@, chosen@[j] as int));
                                    assert(names[chosen@[j] as int] == asked@[j]@);
                                }
                                assert(refused_at(names, wanted, k as int, message@));
                            }
                            let r = Err::<Vec<usize>, TraversalModelError>(
                                TraversalModelError::BuildError(message),
                            );
                            assert(refused_at(
                                names_in(self.builders@),
                                names_in(models->Some_0@),
                                k as int,
                                r->Err_0->BuildError_0@,
                            ));
                            assert(selects(self.builders@, models, r));
                            return r;
                        },
                    }
                    k += 1;
                }
                Ok(chosen)
            },
        }
    }
}

} // verus!
