use objc_bridge::context::Context;
use objc_bridge::path::{split_path, try_split_path};

fn pair(library: &str, file: &str) -> Option<(String, String)> {
    Some((library.to_string(), file.to_string()))
}

#[test]
fn split_path_names_framework_and_header() {
    assert_eq!(
        split_path("Foundation.framework/Headers/NSString.h"),
        ("Foundation".to_string(), "NSString".to_string())
    );
    assert_eq!(
        split_path("AVFAudio.framework/Versions/A/Headers/AVAudioSession.h"),
        ("AVFAudio".to_string(), "AVAudioSession".to_string())
    );
}

#[test]
fn split_path_takes_the_stem() {
    assert_eq!(try_split_path("A.framework/b.tar.gz"), pair("A", "b.tar"));
    assert_eq!(try_split_path("A.framework/README"), pair("A", "README"));
    assert_eq!(try_split_path("A.framework/.hidden"), pair("A", ".hidden"));
    assert_eq!(try_split_path("A.framework/.hidden.h"), pair("A", ".hidden"));
    assert_eq!(try_split_path("A.framework/name."), pair("A", "name"));
    assert_eq!(try_split_path("A.framework/..."), pair("A", ".."));
    assert_eq!(try_split_path(".framework/x.h"), pair("", "x"));
    assert_eq!(try_split_path("A.b.framework/x.h"), pair("A.b", "x"));
}

#[test]
fn split_path_skips_trailing_separators_and_dots() {
    assert_eq!(try_split_path("A.framework/Headers/B.h/"), pair("A", "B"));
    assert_eq!(try_split_path("A.framework/Headers/B.h/."), pair("A", "B"));
    assert_eq!(try_split_path("A.framework//Headers//B.h//./"), pair("A", "B"));
    assert_eq!(try_split_path("A.framework/./B.h"), pair("A", "B"));
}

#[test]
fn split_path_refuses_other_shapes() {
    assert_eq!(try_split_path(""), None);
    assert_eq!(try_split_path("A.framework"), None);
    assert_eq!(try_split_path("A.framework/"), None);
    assert_eq!(try_split_path("A.framework/."), None);
    assert_eq!(try_split_path("A.framework/.."), None);
    assert_eq!(try_split_path("A.framework/Headers/.."), None);
    assert_eq!(try_split_path("/A.framework/B.h"), None);
    assert_eq!(try_split_path("./A.framework/B.h"), None);
    assert_eq!(try_split_path("Headers/B.h"), None);
    assert_eq!(try_split_path("A.frameworks/B.h"), None);
    assert_eq!(try_split_path("framework/B.h"), None);
}

#[test]
fn split_path_agrees_with_std() {
    let cases = [
        "Foundation.framework/Headers/NSString.h",
        "A.framework/b.tar.gz",
        "A.framework/.hidden",
        "A.framework/Headers/B.h/",
        "A.framework//Headers//B.h//./",
        "A.framework/./B.h",
        "A.framework/name.",
    ];
    for case in cases {
        let path = std::path::Path::new(case);
        let mut components = path.components();
        let library = components
            .next()
            .unwrap()
            .as_os_str()
            .to_str()
            .unwrap()
            .strip_suffix(".framework")
            .unwrap()
            .to_string();
        let file = components
            .as_path()
            .file_stem()
            .unwrap()
            .to_string_lossy()
            .to_string();
        assert_eq!(split_path(case), (library, file));
    }
}

#[test]
fn context_resolves_headers() {
    let context = Context::new("/sdk");
    assert_eq!(
        context.get_library_and_file_name(Some(
            "/sdk/System/Library/Frameworks/Foundation.framework/Headers/NSArray.h"
        )),
        pair("Foundation", "NSArray")
    );
    assert_eq!(
        context.get_library_and_file_name(Some("/sdk/usr/include/objc/NSObject.h")),
        pair("Foundation", "NSObject")
    );
    assert_eq!(context.get_library_and_file_name(Some("/sdk/usr/include/objc/runtime.h")), None);
    assert_eq!(
        context.get_library_and_file_name(Some("/sdk/System/Library/FrameworksX/A.framework/B.h")),
        None
    );
    assert_eq!(context.get_library_and_file_name(None), None);
}

#[test]
fn context_joins_with_one_separator() {
    let context = Context::new("/sdk/");
    assert_eq!(
        context.get_library_and_file_name(Some(
            "/sdk/System/Library/Frameworks/AppKit.framework/Headers/NSView.h"
        )),
        pair("AppKit", "NSView")
    );
    assert_eq!(
        context.get_library_and_file_name(Some("/sdk/usr/include/objc/NSObject.h")),
        pair("Foundation", "NSObject")
    );
    let relative = Context::new("");
    assert_eq!(
        relative.get_library_and_file_name(Some("usr/include/objc/NSObject.h")),
        pair("Foundation", "NSObject")
    );
}

#[test]
fn context_tells_what_it_can_resolve() {
    let context = Context::new("/sdk");
    assert!(context.resolves(None));
    assert!(context.resolves(Some("/elsewhere/x.h")));
    assert!(context.resolves(Some("/sdk/System/Library/Frameworks/A.framework/Headers/B.h")));
    assert!(!context.resolves(Some("/sdk/System/Library/Frameworks/module.map")));
    assert!(!context.resolves(Some("/sdk/System/Library/Frameworks")));
}

fn by_std(sdk: &str, file: &str) -> Option<Option<(String, String)>> {
    let framework_dir = std::path::Path::new(sdk).join("System/Library/Frameworks");
    let nsobject_dir = std::path::Path::new(sdk).join("usr/include/objc/NSObject.h");
    let path = std::path::Path::new(file);
    if let Ok(rest) = path.strip_prefix(&framework_dir) {
        let mut components = rest.components();
        let library = components
            .next()?
            .as_os_str()
            .to_str()?
            .strip_suffix(".framework")?
            .to_string();
        let name = components
            .as_path()
            .file_stem()?
            .to_string_lossy()
            .to_string();
        Some(Some((library, name)))
    } else if path == nsobject_dir {
        Some(Some(("Foundation".to_string(), "NSObject".to_string())))
    } else {
        Some(None)
    }
}

#[test]
fn context_agrees_with_std_on_components() {
    let sdks = ["/sdk", "/sdk/", "/sdk//", "/", "", ".", "sdk", "./sdk", "/a/./b"];
    let files = [
        "/sdk/System/Library/Frameworks/Foundation.framework/Headers/NSArray.h",
        "/sdk//System/Library//Frameworks/Foundation.framework/Headers/NSArray.h",
        "/sdk/./System/Library/Frameworks/./Foundation.framework/Headers/NSArray.h/",
        "/sdk/System/Library/Frameworks",
        "/sdk/System/Library/Frameworks/",
        "/sdk/System/Library/FrameworksX/A.framework/B.h",
        "/sdk/System/Library/Framework",
        "/sdk/usr/include/objc/NSObject.h",
        "/sdk//usr/include/./objc/NSObject.h/",
        "/sdk/usr/include/objc/NSObject.hh",
        "/sdk/usr/include/objc",
        "/System/Library/Frameworks/A.framework/B.h",
        "System/Library/Frameworks/A.framework/B.h",
        "./System/Library/Frameworks/A.framework/B.h",
        "sdk/System/Library/Frameworks/A.framework/x/y.z.h",
        "./sdk/System/Library/Frameworks/A.framework/x/y.z.h",
        "/a/b/System/Library/Frameworks/A.framework/../B.h",
        "/a/b/System/Library/Frameworks/A.framework/..",
        "/a/b/usr/include/objc/NSObject.h",
        "usr/include/objc/NSObject.h",
        "./usr/include/objc/NSObject.h",
        "/usr/include/objc/NSObject.h",
        "",
        ".",
        "/",
    ];
    for sdk in sdks {
        let context = Context::new(sdk);
        for file in files {
            let expected = by_std(sdk, file);
            assert_eq!(context.resolves(Some(file)), expected.is_some(), "{sdk:?} {file:?}");
            if let Some(names) = expected {
                assert_eq!(context.get_library_and_file_name(Some(file)), names, "{sdk:?} {file:?}");
            }
        }
    }
}
