//! User-facing display settings.
//!
//! These sections mirror the configuration file of the surrounding
//! application; only the validated plain values live here.

use vstd::prelude::*;

verus! {

/// The drawable overlays of the visualisation.
#[derive(Clone, Copy, Debug, PartialEq, Eq, Structural)]
pub enum DrawSetting {
    CommunicationGraph,
    PredictedTrajectories,
    Waypoints,
    Uncertainty,
    Paths,
    HeightMap,
    FlatMap,
}

/// Compare a string against an ASCII literal, character by character.
fn str_matches(s: &str, lit: &str) -> (r: bool)
    ensures
        r <==> s@ == lit@,
{
    let n: usize = s.unicode_len();
    if n != lit.unicode_len() {
        return false;
    }
    let mut i: usize = 0;
    while i < n
        invariant
            i <= n,
            n == s@.len(),
            n == lit@.len(),
            forall|k: int| 0 <= k < i ==> s@[k] == lit@[k],
        decreases n - i,
    {
        if s.get_char(i) != lit.get_char(i) {
            return false;
        }
        i += 1;
    }
    proof {
        assert(s@ =~= lit@);
    }
    true
}

impl DrawSetting {
    /// Parse an overlay name; unknown names give nothing.
    pub fn from_str(s: &str) -> (r: Option<DrawSetting>)
        ensures
            s@ == "communication_graph"@ ==> r == Some(DrawSetting::CommunicationGraph),
            s@ == "predicted_trajectories"@ ==> r == Some(DrawSetting::PredictedTrajectories),
            s@ == "waypoints"@ ==> r == Some(DrawSetting::Waypoints),
            s@ == "uncertainty"@ ==> r == Some(DrawSetting::Uncertainty),
            s@ == "paths"@ ==> r == Some(DrawSetting::Paths),
            s@ == "height_map"@ ==> r == Some(DrawSetting::HeightMap),
            s@ == "flat_map"@ ==> r == Some(DrawSetting::FlatMap),
            (s@ != "communication_graph"@ && s@ != "predicted_trajectories"@ && s@ != "waypoints"@
                && s@ != "uncertainty"@ && s@ != "paths"@ && s@ != "height_map"@ && s@
                != "flat_map"@) ==> r is None,
    {
        proof {
            reveal_strlit("communication_graph");
            reveal_strlit("predicted_trajectories");
            reveal_strlit("waypoints");
            reveal_strlit("uncertainty");
            reveal_strlit("paths");
            reveal_strlit("height_map");
            reveal_strlit("flat_map");
            assert("communication_graph"@.len() == 19);
            assert("predicted_trajectories"@.len() == 22);
            assert("waypoints"@.len() == 9);
            assert("uncertainty"@.len() == 11);
            assert("paths"@.len() == 5);
            assert("height_map"@.len() == 10);
            assert("flat_map"@.len() == 8);
        }
        if str_matches(s, "communication_graph") {
            Some(DrawSetting::CommunicationGraph)
        } else if str_matches(s, "predicted_trajectories") {
            Some(DrawSetting::PredictedTrajectories)
        } else if str_matches(s, "waypoints") {
            Some(DrawSetting::Waypoints)
        } else if str_matches(s, "uncertainty") {
            Some(DrawSetting::Uncertainty)
        } else if str_matches(s, "paths") {
            Some(DrawSetting::Paths)
        } else if str_matches(s, "height_map") {
            Some(DrawSetting::HeightMap)
        } else if str_matches(s, "flat_map") {
            Some(DrawSetting::FlatMap)
        } else {
            None
        }
    }
}

/// Which overlays are drawn.
#[derive(Clone, Copy, Debug, PartialEq, Eq, Structural)]
pub struct DrawSection {
    pub communication_graph: bool,
    pub predicted_trajectories: bool,
    pub waypoints: bool,
    pub uncertainty: bool,
    pub paths: bool,
    pub height_map: bool,
    pub flat_map: bool,
}

impl DrawSection {
    /// The defaults of the visualisation.
    pub fn default() -> (r: DrawSection)
        ensures
            r == (DrawSection {
                communication_graph: false,
                predicted_trajectories: true,
                waypoints: true,
                uncertainty: false,
                paths: false,
                height_map: false,
                flat_map: true,
            }),
    {
        DrawSection {
            communication_graph: false,
            predicted_trajectories: true,
            waypoints: true,
            uncertainty: false,
            paths: false,
            height_map: false,
            flat_map: true,
        }
    }

    /// The display label of an overlay's configuration name.
    pub fn to_display_string(name: &str) -> (r: &'static str)
        ensures
            name@ == "communication_graph"@ ==> r@ == "Communication"@,
            name@ == "predicted_trajectories"@ ==> r@ == "Trajectories"@,
            name@ == "waypoints"@ ==> r@ == "Waypoints"@,
            name@ == "uncertainty"@ ==> r@ == "Uncertainty"@,
            name@ == "paths"@ ==> r@ == "Paths"@,
            name@ == "height_map"@ ==> r@ == "Height Map"@,
            name@ == "flat_map"@ ==> r@ == "Flat Map"@,
            (name@ != "communication_graph"@ && name@ != "predicted_trajectories"@ && name@
                != "waypoints"@ && name@ != "uncertainty"@ && name@ != "paths"@ && name@
                != "height_map"@ && name@ != "flat_map"@) ==> r@ == "Unknown"@,
    {
        proof {
            reveal_strlit("communication_graph");
            reveal_strlit("predicted_trajectories");
            reveal_strlit("waypoints");
            reveal_strlit("uncertainty");
            reveal_strlit("paths");
            reveal_strlit("height_map");
            reveal_strlit("flat_map");
            assert("communication_graph"@.len() == 19);
            assert("predicted_trajectories"@.len() == 22);
            assert("waypoints"@.len() == 9);
            assert("uncertainty"@.len() == 11);
            assert("paths"@.len() == 5);
            assert("height_map"@.len() == 10);
            assert("flat_map"@.len() == 8);
        }
        if str_matches(name, "communication_graph") {
            "Communication"
        } else if str_matches(name, "predicted_trajectories") {
            "Trajectories"
        } else if str_matches(name, "waypoints") {
            "Waypoints"
        } else if str_matches(name, "uncertainty") {
            "Uncertainty"
        } else if str_matches(name, "paths") {
            "Paths"
        } else if str_matches(name, "height_map") {
            "Height Map"
        } else if str_matches(name, "flat_map") {
            "Flat Map"
        } else {
            "Unknown"
        }
    }
}

/// How user interface focus interacts with simulation inputs.
#[derive(Clone, Copy, Debug, PartialEq, Eq, Structural)]
pub struct InteractionSection {
    pub ui_focus_cancels_inputs: bool,
}

impl InteractionSection {
    /// The default: focused user-interface widgets swallow inputs.
    pub fn default() -> (r: InteractionSection)
        ensures
            r.ui_focus_cancels_inputs == true,
    {
        InteractionSection { ui_focus_cancels_inputs: true }
    }
}

} // verus!
