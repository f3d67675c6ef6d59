//! Planning of window-effect changes. The host toolkit owns the window; this
//! module only decides, per platform and target state, which window actions to
//! perform and in which order. The host layer carries them out one by one and
//! stops at the first failure.

use vstd::prelude::*;

verus! {

/// The closed set of platform variants the effect controller distinguishes.
#[derive(Clone, Copy, PartialEq, Eq, Structural, Debug)]
pub enum Platform {
    MacOs,
    Windows,
    Other,
}

/// The translucent-background materials used on macOS.
#[derive(Clone, Copy, PartialEq, Eq, Structural, Debug)]
pub enum VibrancyMaterial {
    HudWindow,
    WindowBackground,
}

/// One primitive call on the main window, in host-toolkit terms.
#[derive(Clone, Copy, PartialEq, Eq, Structural, Debug)]
pub enum WindowAction {
    /// Show or hide the OS-drawn window chrome.
    SetDecorations(bool),
    /// Apply the given vibrancy material (macOS).
    ApplyVibrancy(VibrancyMaterial),
    /// Apply an alpha blur with the given RGBA tint (Windows).
    ApplyBlur(u8, u8, u8, u8),
    /// Remove the alpha blur (Windows).
    ClearBlur,
    /// Pin or unpin the window above the others.
    SetAlwaysOnTop(bool),
}

/// Whether an action changes the window background (as opposed to its chrome
/// or stacking order).
pub open spec fn is_background_effect(a: WindowAction) -> bool {
    match a {
        WindowAction::ApplyVibrancy(_) => true,
        WindowAction::ApplyBlur(_, _, _, _) => true,
        WindowAction::ClearBlur => true,
        _ => false,
    }
}

/// The action sequence that moves a window into or out of the transparent
/// configuration: decorations are toggled first, then the platform's
/// background effect is applied or undone; platforms without a background
/// effect only toggle decorations.
pub open spec fn transparency_actions(platform: Platform, transparent: bool) -> Seq<WindowAction> {
    if transparent {
        match platform {
            Platform::MacOs => seq![
                WindowAction::SetDecorations(false),
                WindowAction::ApplyVibrancy(VibrancyMaterial::HudWindow),
            ],
            Platform::Windows => seq![
                WindowAction::SetDecorations(false),
                WindowAction::ApplyBlur(18, 18, 18, 125),
            ],
            Platform::Other => seq![WindowAction::SetDecorations(false)],
        }
    } else {
        match platform {
            Platform::MacOs => seq![
                WindowAction::SetDecorations(true),
                WindowAction::ApplyVibrancy(VibrancyMaterial::WindowBackground),
            ],
            Platform::Windows => seq![WindowAction::SetDecorations(true), WindowAction::ClearBlur],
            Platform::Other => seq![WindowAction::SetDecorations(true)],
        }
    }
}

/// Plans the transparency change for one platform.
pub fn transparency_plan(platform: Platform, transparent: bool) -> (r: Vec<WindowAction>)
    ensures
        r@ == transparency_actions(platform, transparent),
{
    let mut r: Vec<WindowAction> = Vec::new();
    r.push(WindowAction::SetDecorations(!transparent));
    match platform {
        Platform::MacOs => {
            if transparent {
                r.push(WindowAction::ApplyVibrancy(VibrancyMaterial::HudWindow));
            } else {
                r.push(WindowAction::ApplyVibrancy(VibrancyMaterial::WindowBackground));
            }
        },
        Platform::Windows => {
            if transparent {
                r.push(WindowAction::ApplyBlur(18, 18, 18, 125));
            } else {
                r.push(WindowAction::ClearBlur);
            }
        },
        Platform::Other => {},
    }
    proof {
        assert(r@ =~= transparency_actions(platform, transparent));
    }
    r
}

/// Plans the always-on-top change: one direct call, the same on every
/// platform.
pub fn always_on_top_plan(always_on_top: bool) -> (r: Vec<WindowAction>)
    ensures
        r@ == seq![WindowAction::SetAlwaysOnTop(always_on_top)],
{
    let mut r: Vec<WindowAction> = Vec::new();
    r.push(WindowAction::SetAlwaysOnTop(always_on_top));
    proof {
        assert(r@ =~= seq![WindowAction::SetAlwaysOnTop(always_on_top)]);
    }
    r
}

/// In every transparency plan, the decorations toggle comes first and any
/// background effect comes strictly after it, so the effect call never runs
/// on a window whose decorations still have the old state.
pub proof fn lemma_decorations_precede_effects(platform: Platform, transparent: bool)
    ensures
        transparency_actions(platform, transparent)[0] == WindowAction::SetDecorations(
            !transparent,
        ),
        forall|i: int|
            0 <= i < transparency_actions(platform, transparent).len() && is_background_effect(
                #[trigger] transparency_actions(platform, transparent)[i],
            ) ==> i > 0,
{
}

} // verus!
