use vstd::prelude::*;

verus! {

/// The tunable weights of the evaluation function.
///
/// The fractional weights are held in thousandths: a weight of `1.798`
/// is stored as `1798`. The row-height weight scales each piece's
/// positional value exactly (truncated toward zero after scaling); the
/// other weights are applied as their integer part, truncated toward zero.
#[derive(Clone, Copy, Debug, PartialEq, Eq, Structural)]
pub struct GeneticParams {
    pub win_score: i32,
    pub loss_score: i32,
    pub center_column_value: i32,
    pub adjacent_center_value: i32,
    pub outer_column_value: i32,
    pub edge_column_value: i32,
    pub row_height_weight_milli: i32,
    pub center_control_weight_milli: i32,
    pub piece_count_weight_milli: i32,
    pub threat_weight_milli: i32,
    pub mobility_weight_milli: i32,
    pub vertical_control_weight_milli: i32,
    pub horizontal_control_weight_milli: i32,
    pub defensive_weight_milli: i32,
}

/// The tuned default weights.
pub open spec fn default_params() -> GeneticParams {
    GeneticParams {
        win_score: 10000,
        loss_score: -10000i32,
        center_column_value: 165,
        adjacent_center_value: 97,
        outer_column_value: 17,
        edge_column_value: 6,
        row_height_weight_milli: 1798,
        center_control_weight_milli: 2022,
        piece_count_weight_milli: 965,
        threat_weight_milli: 1588,
        mobility_weight_milli: 1453,
        vertical_control_weight_milli: 2862,
        horizontal_control_weight_milli: 1344,
        defensive_weight_milli: 1372,
    }
}

impl Default for GeneticParams {
    fn default() -> (r: GeneticParams)
        ensures
            r == default_params(),
    {
        GeneticParams {
            win_score: 10000,
            loss_score: -10000,
            center_column_value: 165,
            adjacent_center_value: 97,
            outer_column_value: 17,
            edge_column_value: 6,
            row_height_weight_milli: 1798,
            center_control_weight_milli: 2022,
            piece_count_weight_milli: 965,
            threat_weight_milli: 1588,
            mobility_weight_milli: 1453,
            vertical_control_weight_milli: 2862,
            horizontal_control_weight_milli: 1344,
            defensive_weight_milli: 1372,
        }
    }
}

} // verus!
