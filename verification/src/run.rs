//! The single-shot pipeline: clean the parsed report, reconcile it into
//! the canonical graph, and hand the graph on for invariant checking and
//! serialization. Reading inputs, prefetching hashes and writing output
//! stay outside the library.

use vstd::prelude::*;

use crate::clean::{spec_metadata_cleaned, spec_metadata_ok, Context};
use crate::error::{Error, ErrorKind};
use crate::input;
use crate::output::{spec_curr_meta, spec_graph_built, spec_graph_ok, Metadata};
use crate::nargo::PkgId;

verus! {

/// Everything the pipeline needs of the parsed report: the report cleans,
/// and every cleaning of it reconciles.
pub open spec fn spec_pipeline_ok(
    input: crate::input::MetadataView,
    current: Option<&Metadata>,
    assume_vendored: bool,
) -> bool {
    &&& spec_metadata_ok(input, input.workspace_root)
    &&& forall|c: input::Metadata|
        #[trigger] spec_metadata_cleaned(input, c, input.workspace_root) ==> spec_graph_ok(
            c@.nodes,
            c@.packages,
            spec_curr_meta(current),
            assume_vendored,
            input.workspace_root,
        )
}

/// Clean the report and assemble the canonical graph from it. The prior
/// graph, where given, only feeds the hash carry-forward. Fails exactly
/// where the report itself fails cleaning or reconciliation, never on a
/// report the pipeline can handle.
pub fn build_graph(
    input: input::Metadata,
    current: Option<&Metadata>,
    assume_vendored: bool,
) -> (r: Result<Metadata, Error>)
    ensures
        match r {
            Ok(g) => exists|c: input::Metadata|
                {
                    &&& spec_metadata_ok(input@, input@.workspace_root)
                    &&& #[trigger] spec_metadata_cleaned(input@, c, input@.workspace_root)
                    &&& spec_graph_ok(
                        c@.nodes,
                        c@.packages,
                        spec_curr_meta(current),
                        assume_vendored,
                        input@.workspace_root,
                    )
                    &&& spec_graph_built(
                        c@.nodes,
                        c@.packages,
                        spec_curr_meta(current),
                        assume_vendored,
                        input@.workspace_root,
                        c@.workspace_members,
                        c@.workspace_default_members,
                        g@,
                    )
                },
            Err(e) => !spec_pipeline_ok(input@, current, assume_vendored) && (e.kind
                == ErrorKind::Parse || e.kind == ErrorKind::Inconsistent),
        },
{
    let root = crate::bytes::copy_range(
        input.workspace_root.as_slice(),
        0,
        input.workspace_root.len(),
    );
    proof {
        assert(root@ =~= input@.workspace_root);
    }
    let ctx = Context { workspace_root: root };
    let cleaned = match input.clean(&ctx) {
        Ok(c) => c,
        Err(e) => {
            proof {
                assert(!spec_metadata_ok(input@, input@.workspace_root));
            }
            return Err(e);
        },
    };
    let ghost cv = cleaned;
    let input::Metadata {
        packages,
        workspace_members,
        workspace_default_members,
        resolve,
        workspace_root: _,
    } = cleaned;
    let g = match Metadata::from_input(
        &packages,
        workspace_members,
        workspace_default_members,
        resolve,
        current,
        assume_vendored,
        ctx.workspace_root.as_slice(),
    ) {
        Ok(g) => g,
        Err(e) => {
            proof {
                assert(cv@.packages =~= packages@.map_values(|m: input::Manifest| m@));
                assert(cv@.nodes =~= resolve.nodes@.map_values(|n: input::Node| n@));
                assert(!spec_graph_ok(
                    cv@.nodes,
                    cv@.packages,
                    spec_curr_meta(current),
                    assume_vendored,
                    input@.workspace_root,
                ));
                assert(spec_metadata_cleaned(input@, cv, input@.workspace_root));
                assert(!spec_pipeline_ok(input@, current, assume_vendored));
            }
            return Err(e);
        },
    };
    proof {
        assert(cv@.packages =~= packages@.map_values(|m: input::Manifest| m@));
        assert(cv@.workspace_members =~= workspace_members@.map_values(|p: PkgId| p@));
        assert(cv@.workspace_default_members =~= workspace_default_members@.map_values(
            |p: PkgId| p@,
        ));
        assert(cv@.nodes =~= resolve.nodes@.map_values(|n: input::Node| n@));
    }
    Ok(g)
}

} // verus!
