//! Builds the LCSS matcher from its configuration.

use vstd::prelude::*;
use crate::map_matching::lcss::lcss_map_matching::{unit_named, LcssConfig, LcssMapMatching};
use crate::map_matching::map_matching_error::MapMatchingError;

verus! {

/// The builder of [`LcssMapMatching`].
#[derive(Clone, Copy, Debug, Default)]
pub struct LcssMapMatchingBuilder;

impl LcssMapMatchingBuilder {
    /// The matcher that `config` describes; see
    /// [`LcssMapMatching::from_config`]. Fails exactly when the name of the
    /// distance unit is not known.
    pub fn build(&self, config: LcssConfig) -> (r: Result<LcssMapMatching, MapMatchingError>)
        ensures
            match unit_named(config.distance_unit@) {
                Some(unit) => r matches Ok(lcss) && lcss.distance_epsilon == unit.millimeters(
                    config.distance_epsilon,
                ) && lcss.similarity_cutoff == config.similarity_cutoff && lcss.cutting_threshold
                    == unit.millimeters(config.cutting_threshold) && lcss.random_cuts
                    == config.random_cuts && lcss.distance_threshold == unit.millimeters(
                    config.distance_threshold,
                ),
                None => r matches Err(MapMatchingError::InternalError(_)),
            },
    {
        LcssMapMatching::from_config(config)
    }
}

} // verus!
