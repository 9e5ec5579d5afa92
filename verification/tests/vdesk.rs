use waybar_vdesk::vdesk::{VirtualDesktop, VirtualDesktopsManager};

/// Reads Hyprland's JSON state report into desktops, as the module does.
fn parse_state(json: &str) -> Result<Vec<VirtualDesktop>, String> {
    let value: serde_json::Value = serde_json::from_str(json).map_err(|e| e.to_string())?;
    let items = value.as_array().ok_or_else(|| "expected an array".to_string())?;
    let mut out = Vec::new();
    for item in items {
        let field = |name: &str| item.get(name).ok_or_else(|| format!("missing field `{}`", name));
        let number = |name: &str| -> Result<u32, String> {
            let n = field(name)?.as_u64().ok_or_else(|| format!("`{}` is not a number", name))?;
            u32::try_from(n).map_err(|e| e.to_string())
        };
        let text = |name: &str| -> Result<String, String> {
            Ok(field(name)?.as_str().ok_or_else(|| format!("`{}` is not a string", name))?.to_string())
        };
        let flag = |name: &str| -> Result<bool, String> {
            field(name)?.as_bool().ok_or_else(|| format!("`{}` is not a boolean", name))
        };
        let mut workspaces = Vec::new();
        for w in field("workspaces")?.as_array().ok_or_else(|| "`workspaces` is not an array".to_string())? {
            let n = w.as_u64().ok_or_else(|| "workspace is not a number".to_string())?;
            workspaces.push(u32::try_from(n).map_err(|e| e.to_string())?);
        }
        out.push(VirtualDesktop {
            id: number("id")?,
            name: text("name")?,
            focused: flag("focused")?,
            populated: flag("populated")?,
            window_count: number("windows")?,
            workspaces,
            status: text("status")?,
        });
    }
    Ok(out)
}

fn find(manager: &VirtualDesktopsManager, id: u32) -> VirtualDesktop {
    manager.get_virtual_desktops().into_iter().find(|d| d.id == id).unwrap()
}

#[test]
fn test_parse_virtual_desktop_state() {
    let mut manager = VirtualDesktopsManager::new();

    // Initial state
    let initial_state = r#"[{
        "id": 1,
        "name": "  Focus",
        "focused": true,
        "populated": true,
        "workspaces": [1, 2],
        "windows": 2,
        "status": "active"
    }]"#;
    manager.apply_parsed_state(parse_state(initial_state)).unwrap();
    assert_eq!(manager.get_virtual_desktops().len(), 1);

    // Update: one desktop modified, one added, one removed
    let updated_state = r#"[{
        "id": 1,
        "name": "  Focus",
        "focused": false,
        "populated": true,
        "workspaces": [1, 2],
        "windows": 3,
        "status": "inactive"
    },{
        "id": 2,
        "name": "󰍉 Research",
        "focused": true,
        "populated": true,
        "workspaces": [3, 4],
        "windows": 1,
        "status": "active"
    }]"#;
    manager.apply_parsed_state(parse_state(updated_state)).unwrap();

    let vdesks = manager.get_virtual_desktops();
    assert_eq!(vdesks.len(), 2);

    let focus_vdesk = find(&manager, 1);
    assert!(!focus_vdesk.focused);
    assert_eq!(focus_vdesk.window_count, 3);
    assert_eq!(focus_vdesk.status, "inactive");

    let research_vdesk = find(&manager, 2);
    assert!(research_vdesk.focused);
    assert_eq!(research_vdesk.status, "active");
}

#[test]
fn test_parse_invalid_json() {
    let mut manager = VirtualDesktopsManager::new();
    manager
        .apply_parsed_state(Ok(vec![VirtualDesktop::new(1, "Test".to_string())]))
        .unwrap();

    let invalid_json = "{ invalid json }";
    let result = manager.apply_parsed_state(parse_state(invalid_json));
    assert!(result.is_err());
    assert!(result.unwrap_err().starts_with("Failed to parse virtual desktop JSON: "));

    // Ensure state is unchanged on error
    assert_eq!(manager.get_virtual_desktops().len(), 1);
}

#[test]
fn desktops_missing_from_a_report_are_dropped() {
    let mut manager = VirtualDesktopsManager::new();
    manager
        .apply_parsed_state(Ok(vec![
            VirtualDesktop::new(3, "c".to_string()),
            VirtualDesktop::new(1, "a".to_string()),
            VirtualDesktop::new(2, "b".to_string()),
        ]))
        .unwrap();
    let ids: Vec<u32> = manager.get_virtual_desktops().iter().map(|d| d.id).collect();
    assert_eq!(ids, vec![1, 2, 3]);

    manager
        .apply_parsed_state(Ok(vec![VirtualDesktop::new(2, "renamed".to_string())]))
        .unwrap();
    let all = manager.get_virtual_desktops();
    assert_eq!(all.len(), 1);
    assert_eq!(all[0].id, 2);
    assert_eq!(all[0].name, "renamed");

    manager.apply_parsed_state(Ok(vec![])).unwrap();
    assert!(manager.get_virtual_desktops().is_empty());
}

#[test]
fn the_last_report_entry_for_an_id_wins() {
    let mut manager = VirtualDesktopsManager::new();
    manager
        .apply_parsed_state(Ok(vec![
            VirtualDesktop::new(5, "first".to_string()),
            VirtualDesktop::new(5, "second".to_string()),
        ]))
        .unwrap();
    let all = manager.get_virtual_desktops();
    assert_eq!(all.len(), 1);
    assert_eq!(all[0].name, "second");
}

#[test]
fn focused_desktop_is_found() {
    let mut manager = VirtualDesktopsManager::new();
    assert!(manager.get_focused_virtual_desktop().is_none());
    let mut focused = VirtualDesktop::new(2, "b".to_string());
    focused.focused = true;
    manager
        .apply_parsed_state(Ok(vec![VirtualDesktop::new(1, "a".to_string()), focused]))
        .unwrap();
    assert_eq!(manager.get_focused_virtual_desktop().unwrap().id, 2);
    manager
        .apply_parsed_state(Ok(vec![VirtualDesktop::new(1, "a".to_string())]))
        .unwrap();
    assert!(manager.get_focused_virtual_desktop().is_none());
}

#[test]
fn new_desktops_start_empty_and_copies_match() {
    let d = VirtualDesktop::new(9, "nine".to_string());
    assert_eq!(d.id, 9);
    assert_eq!(d.name, "nine");
    assert!(!d.focused && !d.populated);
    assert_eq!(d.window_count, 0);
    assert!(d.workspaces.is_empty());
    assert!(d.status.is_empty());
    let mut e = VirtualDesktop::new(4, "x".to_string());
    e.workspaces = vec![7, 8];
    e.status = "active".to_string();
    let c = e.duplicate();
    assert_eq!(c.workspaces, vec![7, 8]);
    assert_eq!(c.status, "active");
    assert_eq!(c.name, "x");
    let manager = VirtualDesktopsManager::new();
    assert!(manager.ipc().is_none());
}

#[test]
fn of_several_focused_desktops_the_lowest_id_is_reported() {
    let mut manager = VirtualDesktopsManager::new();
    let mut a = VirtualDesktop::new(7, "a".to_string());
    a.focused = true;
    let mut b = VirtualDesktop::new(3, "b".to_string());
    b.focused = true;
    manager.apply_parsed_state(Ok(vec![a, b])).unwrap();
    assert_eq!(manager.get_focused_virtual_desktop().unwrap().id, 3);
}
