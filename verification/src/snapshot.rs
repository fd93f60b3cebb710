//! The immutable snapshot an authority process builds once and serves to
//! every display client: the configuration plus the full ordered code list.
//! Index `i` in the code list is implicitly the cell index.

use vstd::prelude::*;

use crate::codes::SelectedKeys;
use crate::codes::all_codes;
use crate::codes::generate_token_list;
use crate::conf::Conf;
use crate::errors::ConfigurationError;

verus! {

/// No two codes are equal.
pub open spec fn spec_codes_unique(codes: Seq<Seq<char>>) -> bool {
    forall|p: int, q: int| 0 <= p < q < codes.len() ==> codes[p] != codes[q]
}

/// Decide [`spec_codes_unique`] of the token list.
pub fn codes_unique(tokens: &Vec<String>) -> (r: bool)
    ensures
        r == spec_codes_unique(tokens.deep_view()),
{
    let ghost tv = tokens.deep_view();
    let n = tokens.len();
    let mut p: usize = 0;
    while p < n
        invariant
            p <= n,
            n == tv.len(),
            tv == tokens.deep_view(),
            forall|a: int, b: int| 0 <= a < b < n && a < p ==> tv[a] != tv[b],
        decreases n - p,
    {
        let mut q: usize = p + 1;
        while q < n
            invariant
                p < q <= n,
                p < n,
                n == tv.len(),
                tv == tokens.deep_view(),
                forall|a: int, b: int| 0 <= a < b < n && a < p ==> tv[a] != tv[b],
                forall|b: int| p < b < q ==> tv[p as int] != tv[b],
            decreases n - q,
        {
            if tokens[p].eq(&tokens[q]) {
                assert(tv[p as int] == tv[q as int]);
                return false;
            }
            q = q + 1;
        }
        p = p + 1;
    }
    true
}

/// The immutable bundle served to clients: configuration and code list.
#[derive(Debug, Clone)]
pub struct SharedData {
    pub config: Conf,
    pub tokens: Vec<String>,
}

impl SharedData {
    /// The snapshot invariant: one code per grid cell, all codes distinct.
    pub open spec fn wf(self) -> bool {
        &&& self.tokens.deep_view().len() == self.config.grid.rows as int
            * self.config.grid.columns as int
        &&& spec_codes_unique(self.tokens.deep_view())
    }

    /// Build the snapshot for a configuration: generate the code list for the
    /// grid's cells and validate the invariant. Fails exactly on an empty
    /// grid, a code space too small for the grid, or duplicate codes.
    pub fn new(config: Conf, keys: &SelectedKeys) -> (r: Result<SharedData, ConfigurationError>)
        ensures
            (r matches Ok(sd) ==> {
                &&& sd.config == config
                &&& sd.tokens.deep_view() == all_codes(
                    keys.left.deep_view(),
                    keys.right.deep_view(),
                ).take(config.grid.rows as int * config.grid.columns as int)
                &&& sd.wf()
            }),
            r == Err::<SharedData, _>(ConfigurationError::InvalidGridDimensions) <==> (
            config.grid.rows == 0 || config.grid.columns == 0),
            r == Err::<SharedData, _>(ConfigurationError::InsufficientCodeSpace) <==> (
            config.grid.rows > 0 && config.grid.columns > 0 && all_codes(
                keys.left.deep_view(),
                keys.right.deep_view(),
            ).len() < config.grid.rows as int * config.grid.columns as int),
            r is Ok <==> (config.grid.rows > 0 && config.grid.columns > 0 && all_codes(
                keys.left.deep_view(),
                keys.right.deep_view(),
            ).len() >= config.grid.rows as int * config.grid.columns as int && spec_codes_unique(
                all_codes(keys.left.deep_view(), keys.right.deep_view()).take(
                    config.grid.rows as int * config.grid.columns as int,
                ),
            )),
    {
        if config.grid.rows == 0 || config.grid.columns == 0 {
            return Err(ConfigurationError::InvalidGridDimensions);
        }
        let total = config.grid.total_cells();
        let tokens = match generate_token_list(total, keys) {
            Ok(tokens) => tokens,
            Err(e) => {
                return Err(e);
            },
        };
        if !codes_unique(&tokens) {
            return Err(ConfigurationError::DuplicateCodes);
        }
        Ok(SharedData { config, tokens })
    }
}

} // verus!
