use shell_backend::effects::{
    always_on_top_plan, transparency_plan, Platform, VibrancyMaterial, WindowAction,
};

const PLATFORMS: [Platform; 3] = [Platform::MacOs, Platform::Windows, Platform::Other];

fn is_background_effect(a: &WindowAction) -> bool {
    matches!(
        a,
        WindowAction::ApplyVibrancy(_) | WindowAction::ApplyBlur(_, _, _, _) | WindowAction::ClearBlur
    )
}

#[test]
fn transparent_plan_macos() {
    assert_eq!(
        transparency_plan(Platform::MacOs, true),
        vec![
            WindowAction::SetDecorations(false),
            WindowAction::ApplyVibrancy(VibrancyMaterial::HudWindow),
        ]
    );
}

#[test]
fn transparent_plan_windows() {
    assert_eq!(
        transparency_plan(Platform::Windows, true),
        vec![WindowAction::SetDecorations(false), WindowAction::ApplyBlur(18, 18, 18, 125)]
    );
}

#[test]
fn transparent_plan_other() {
    assert_eq!(transparency_plan(Platform::Other, true), vec![WindowAction::SetDecorations(false)]);
}

#[test]
fn opaque_plan_macos() {
    assert_eq!(
        transparency_plan(Platform::MacOs, false),
        vec![
            WindowAction::SetDecorations(true),
            WindowAction::ApplyVibrancy(VibrancyMaterial::WindowBackground),
        ]
    );
}

#[test]
fn opaque_plan_windows() {
    assert_eq!(
        transparency_plan(Platform::Windows, false),
        vec![WindowAction::SetDecorations(true), WindowAction::ClearBlur]
    );
}

#[test]
fn opaque_plan_other() {
    assert_eq!(transparency_plan(Platform::Other, false), vec![WindowAction::SetDecorations(true)]);
}

#[test]
fn decorations_precede_effect() {
    for platform in PLATFORMS {
        for transparent in [true, false] {
            let plan = transparency_plan(platform, transparent);
            assert_eq!(plan[0], WindowAction::SetDecorations(!transparent));
            for (i, action) in plan.iter().enumerate() {
                if is_background_effect(action) {
                    assert!(i > 0);
                }
            }
        }
    }
}

#[test]
fn always_on_top_plan_single_action() {
    assert_eq!(always_on_top_plan(true), vec![WindowAction::SetAlwaysOnTop(true)]);
    assert_eq!(always_on_top_plan(false), vec![WindowAction::SetAlwaysOnTop(false)]);
}
