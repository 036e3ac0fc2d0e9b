//! The fixed camera presets of `--view`.
use vstd::prelude::*;
use crate::config::is_arg;

verus! {

/// A fixed viewpoint (it disables the drift and the mouse orbit).
#[derive(Clone, Copy, PartialEq, Eq, Debug, Structural)]
pub enum CameraView {
    Fill,
    Front,
    Hero,
    Side,
    Top,
    Low,
    Close,
    Inside,
}

pub open spec fn spec_view_named(name: Seq<char>) -> Option<CameraView> {
    if name == "fill"@ {
        Some(CameraView::Fill)
    } else if name == "front"@ {
        Some(CameraView::Front)
    } else if name == "hero"@ {
        Some(CameraView::Hero)
    } else if name == "side"@ {
        Some(CameraView::Side)
    } else if name == "top"@ {
        Some(CameraView::Top)
    } else if name == "low"@ {
        Some(CameraView::Low)
    } else if name == "close"@ {
        Some(CameraView::Close)
    } else if name == "inside"@ {
        Some(CameraView::Inside)
    } else {
        None
    }
}

/// The preset that `--view` names: fill, front, hero, side, top, low,
/// close or inside; `None` for any other name.
pub fn preset(name: &String) -> (v: Option<CameraView>)
    ensures
        v == spec_view_named(name@),
{
    if is_arg(name, "fill") {
        Some(CameraView::Fill)
    } else if is_arg(name, "front") {
        Some(CameraView::Front)
    } else if is_arg(name, "hero") {
        Some(CameraView::Hero)
    } else if is_arg(name, "side") {
        Some(CameraView::Side)
    } else if is_arg(name, "top") {
        Some(CameraView::Top)
    } else if is_arg(name, "low") {
        Some(CameraView::Low)
    } else if is_arg(name, "close") {
        Some(CameraView::Close)
    } else if is_arg(name, "inside") {
        Some(CameraView::Inside)
    } else {
        None
    }
}

/// A fixed view, where one is set and names a preset.
pub fn fixed_view(view: &Option<String>) -> (v: Option<CameraView>)
    ensures
        v == match view {
            Some(name) => spec_view_named(name@),
            None => None,
        },
{
    match view {
        Some(name) => preset(name),
        None => None,
    }
}

/// Each of the eight `--view` names selects the view of the same name, and
/// distinct names never select the same view: no preset stands in for
/// another.
pub proof fn lemma_views_by_name(a: Seq<char>, b: Seq<char>)
    ensures
        spec_view_named("fill"@) == Some(CameraView::Fill),
        spec_view_named("front"@) == Some(CameraView::Front),
        spec_view_named("hero"@) == Some(CameraView::Hero),
        spec_view_named("side"@) == Some(CameraView::Side),
        spec_view_named("top"@) == Some(CameraView::Top),
        spec_view_named("low"@) == Some(CameraView::Low),
        spec_view_named("close"@) == Some(CameraView::Close),
        spec_view_named("inside"@) == Some(CameraView::Inside),
        spec_view_named(a) is Some && spec_view_named(a) == spec_view_named(b) ==> a == b,
{
    reveal_strlit("fill");
    reveal_strlit("front");
    reveal_strlit("hero");
    reveal_strlit("side");
    reveal_strlit("top");
    reveal_strlit("low");
    reveal_strlit("close");
    reveal_strlit("inside");
    assert("front"@ != "fill"@) by {
        assert("front"@[1] != "fill"@[1]);
    }
    assert("hero"@ != "fill"@) by {
        assert("hero"@[0] != "fill"@[0]);
    }
    assert("hero"@ != "front"@) by {
        assert("hero"@[0] != "front"@[0]);
    }
    assert("side"@ != "fill"@) by {
        assert("side"@[0] != "fill"@[0]);
    }
    assert("side"@ != "front"@) by {
        assert("side"@[0] != "front"@[0]);
    }
    assert("side"@ != "hero"@) by {
        assert("side"@[0] != "hero"@[0]);
    }
    assert("top"@ != "fill"@) by {
        assert("top"@[0] != "fill"@[0]);
    }
    assert("top"@ != "front"@) by {
        assert("top"@[0] != "front"@[0]);
    }
    assert("top"@ != "hero"@) by {
        assert("top"@[0] != "hero"@[0]);
    }
    assert("top"@ != "side"@) by {
        assert("top"@[0] != "side"@[0]);
    }
    assert("low"@ != "fill"@) by {
        assert("low"@[0] != "fill"@[0]);
    }
    assert("low"@ != "front"@) by {
        assert("low"@[0] != "front"@[0]);
    }
    assert("low"@ != "hero"@) by {
        assert("low"@[0] != "hero"@[0]);
    }
    assert("low"@ != "side"@) by {
        assert("low"@[0] != "side"@[0]);
    }
    assert("low"@ != "top"@) by {
        assert("low"@[0] != "top"@[0]);
    }
    assert("close"@ != "fill"@) by {
        assert("close"@[0] != "fill"@[0]);
    }
    assert("close"@ != "front"@) by {
        assert("close"@[0] != "front"@[0]);
    }
    assert("close"@ != "hero"@) by {
        assert("close"@[0] != "hero"@[0]);
    }
    assert("close"@ != "side"@) by {
        assert("close"@[0] != "side"@[0]);
    }
    assert("close"@ != "top"@) by {
        assert("close"@[0] != "top"@[0]);
    }
    assert("close"@ != "low"@) by {
        assert("close"@[0] != "low"@[0]);
    }
    assert("inside"@ != "fill"@) by {
        assert("inside"@[0] != "fill"@[0]);
    }
    assert("inside"@ != "front"@) by {
        assert("inside"@[0] != "front"@[0]);
    }
    assert("inside"@ != "hero"@) by {
        assert("inside"@[0] != "hero"@[0]);
    }
    assert("inside"@ != "side"@) by {
        assert("inside"@[0] != "side"@[0]);
    }
    assert("inside"@ != "top"@) by {
        assert("inside"@[0] != "top"@[0]);
    }
    assert("inside"@ != "low"@) by {
        assert("inside"@[0] != "low"@[0]);
    }
    assert("inside"@ != "close"@) by {
        assert("inside"@[0] != "close"@[0]);
    }
}

/// Where the scene is rendered: straight into the window when the render
/// size is the window's own (unless offscreen rendering is forced), else
/// into an offscreen image that is then upscaled.
#[derive(Clone, Copy, PartialEq, Eq, Debug, Structural)]
pub struct TargetPlan {
    pub direct: bool,
    /// The offscreen image's width and height (a token 64x64 when unused).
    pub width: u32,
    pub height: u32,
}

pub open spec fn spec_scene_target(size: (u32, u32), window: (u32, u32), offscreen: bool) -> TargetPlan {
    let direct = size == window && !offscreen;
    TargetPlan {
        direct,
        width: if direct { 64 } else { size.0 },
        height: if direct { 64 } else { size.1 },
    }
}

pub fn scene_target(size: (u32, u32), window: (u32, u32), offscreen: bool) -> (p: TargetPlan)
    ensures
        p == spec_scene_target(size, window, offscreen),
{
    let direct = size.0 == window.0 && size.1 == window.1 && !offscreen;
    TargetPlan {
        direct,
        width: if direct { 64 } else { size.0 },
        height: if direct { 64 } else { size.1 },
    }
}

/// A window too small to render into (minimised, being created) is left
/// alone.
pub fn window_usable(window: (u32, u32)) -> (r: bool)
    ensures
        r == (window.0 >= 16 && window.1 >= 16),
{
    window.0 >= 16 && window.1 >= 16
}

} // verus!
