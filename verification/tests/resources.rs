use x11rb_async::resources::{
    extension_name, extension_resources, for_extension, free_request_for, same_text,
    EXTENSION_COUNT,
};

#[test]
fn xproto_has_its_six_resources() {
    let list = for_extension("xproto");
    let names: Vec<&str> = list.iter().map(|r| r.resource_name).collect();
    assert_eq!(names, vec!["Pixmap", "Window", "Font", "Gcontext", "Colormap", "Cursor"]);
    let frees: Vec<&str> = list.iter().map(|r| r.free_request).collect();
    assert_eq!(
        frees,
        vec!["FreePixmap", "DestroyWindow", "CloseFont", "FreeGC", "FreeColormap", "FreeCursor"]
    );
    assert_eq!(list[1].create_requests.len(), 1);
    assert_eq!(list[1].create_requests[0].request_name, "CreateWindow");
    assert_eq!(list[1].create_requests[0].created_argument, "wid");
}

#[test]
fn cursor_is_created_by_two_requests_and_freed_by_one() {
    let list = for_extension("xproto");
    let cursor = &list[5];
    let creators: Vec<(&str, &str)> =
        cursor.create_requests.iter().map(|c| (c.request_name, c.created_argument)).collect();
    assert_eq!(creators, vec![("CreateCursor", "cid"), ("CreateGlyphCursor", "cid")]);
    assert_eq!(cursor.free_request, "FreeCursor");
}

#[test]
fn render_and_xfixes_list_five_creators() {
    let render = for_extension("render");
    assert_eq!(render.len(), 2);
    let creators: Vec<&str> = render[0].create_requests.iter().map(|c| c.request_name).collect();
    assert_eq!(
        creators,
        vec![
            "CreatePicture",
            "CreateSolidFill",
            "CreateLinearGradient",
            "CreateRadialGradient",
            "CreateConicalGradient"
        ]
    );
    assert_eq!(render[0].create_requests[0].created_argument, "pid");
    assert_eq!(render[0].create_requests[4].created_argument, "picture");
    assert_eq!(render[0].free_request, "FreePicture");
    assert_eq!(render[1].resource_name, "Glyphset");
    assert_eq!(render[1].create_requests[0].created_argument, "gsid");

    let xfixes = for_extension("xfixes");
    assert_eq!(xfixes.len(), 1);
    let creators: Vec<&str> = xfixes[0].create_requests.iter().map(|c| c.request_name).collect();
    assert_eq!(
        creators,
        vec![
            "CreateRegion",
            "CreateRegionFromBitmap",
            "CreateRegionFromWindow",
            "CreateRegionFromGC",
            "CreateRegionFromPicture"
        ]
    );
    assert_eq!(xfixes[0].free_request, "DestroyRegion");
}

#[test]
fn small_extensions_have_their_resources() {
    let damage = for_extension("damage");
    assert_eq!(damage.len(), 1);
    assert_eq!(damage[0].resource_name, "Damage");
    assert_eq!(damage[0].create_requests[0].request_name, "Create");
    assert_eq!(damage[0].create_requests[0].created_argument, "damage");
    assert_eq!(damage[0].free_request, "Destroy");

    let shm = for_extension("shm");
    assert_eq!(shm.len(), 1);
    assert_eq!(shm[0].resource_name, "Seg");
    assert_eq!(shm[0].create_requests.len(), 1);
    assert_eq!(shm[0].create_requests[0].request_name, "Attach");
    assert_eq!(shm[0].free_request, "Detach");

    let sync = for_extension("sync");
    let names: Vec<(&str, &str)> = sync.iter().map(|r| (r.resource_name, r.free_request)).collect();
    assert_eq!(
        names,
        vec![("Counter", "DestroyCounter"), ("Alarm", "DestroyAlarm"), ("Fence", "DestroyFence")]
    );
    assert_eq!(sync[2].create_requests[0].created_argument, "fence");
}

#[test]
fn known_extensions_without_resources_and_unknown_ones_are_empty() {
    for name in ["composite", "dri2", "dri3", "glx", "record", "xf86dri", "xprint", "xvmc"] {
        assert!(for_extension(name).is_empty(), "{}", name);
    }
    for name in ["", "XPROTO", "xproto ", "randr", "xinput"] {
        assert!(for_extension(name).is_empty(), "{}", name);
    }
}

#[test]
fn every_definition_has_distinct_creators() {
    assert_eq!(EXTENSION_COUNT, 14);
    let mut names = Vec::new();
    for index in 0..EXTENSION_COUNT {
        let name = extension_name(index);
        assert!(!names.contains(&name));
        names.push(name);
        let list = extension_resources(index);
        assert_eq!(list.len(), for_extension(name).len());
        for resource in &list {
            assert!(!resource.create_requests.is_empty());
            assert!(!resource.free_request.is_empty());
            for (i, a) in resource.create_requests.iter().enumerate() {
                for b in &resource.create_requests[i + 1..] {
                    assert_ne!(a.request_name, b.request_name);
                }
            }
        }
    }
    assert_eq!(names[0], "xproto");
    assert_eq!(names[13], "xvmc");
}

#[test]
fn free_request_is_found_by_resource_type() {
    let list = for_extension("xproto");
    assert_eq!(free_request_for(&list, "Window"), Some("DestroyWindow"));
    assert_eq!(free_request_for(&list, "Cursor"), Some("FreeCursor"));
    assert_eq!(free_request_for(&list, "window"), None);
    assert_eq!(free_request_for(&Vec::new(), "Window"), None);
}

#[test]
fn same_text_compares_whole_strings() {
    assert!(same_text("xproto", "xproto"));
    assert!(same_text("", ""));
    assert!(!same_text("xproto", "xprot"));
    assert!(!same_text("xproto", "Xproto"));
}
