use background_picker::args::Args;
use background_picker::index::{BackgroundPickerApp, FolderGroup, LoadState};
use background_picker::scanner::{folder_of, is_image_file, relative_to};

fn find_group<'a>(app: &'a BackgroundPickerApp, key: &str) -> Option<&'a FolderGroup> {
    app.folder_tree.iter().find(|g| g.folder == key)
}

fn app_with_directory(directory: &str) -> BackgroundPickerApp {
    let mut args = Args::default();
    args.directory = directory.to_string();
    BackgroundPickerApp::new(args, "/tmp/cache".to_string())
}

#[test]
fn test_is_image_file_valid_extensions() {
    let test_cases = vec![
        ("image.jpg", true),
        ("image.jpeg", true),
        ("image.png", true),
        ("image.gif", true),
        ("image.bmp", true),
        ("image.webp", true),
        ("IMAGE.JPG", true), // Test case insensitive
        ("IMAGE.PNG", true),
    ];

    for (filename, expected) in test_cases {
        assert_eq!(is_image_file(filename), expected, "Failed for {}", filename);
    }
}

#[test]
fn test_is_image_file_invalid_extensions() {
    let test_cases = vec![
        ("document.txt", false),
        ("video.mp4", false),
        ("audio.mp3", false),
        ("archive.zip", false),
        ("no_extension", false),
        ("image.", false), // Empty extension
    ];

    for (filename, expected) in test_cases {
        assert_eq!(is_image_file(filename), expected, "Failed for {}", filename);
    }
}

#[test]
fn test_is_image_file_dotfiles_and_nested() {
    assert!(!is_image_file(".jpg"));
    assert!(!is_image_file("dir.jpg/file"));
    assert!(is_image_file("some/dir/photo.JpG"));
    assert!(!is_image_file(""));
}

#[test]
fn test_relative_and_folder_paths() {
    assert_eq!(relative_to("/base/a/b.jpg", "/base"), "a/b.jpg");
    assert_eq!(relative_to("/elsewhere/b.jpg", "/base"), "/elsewhere/b.jpg");
    assert_eq!(folder_of("/base/a/b.jpg", "/base"), "a");
    assert_eq!(folder_of("/base/b.jpg", "/base"), ".");
    assert_eq!(folder_of("/elsewhere/b.jpg", "/base"), ".");
    assert_eq!(folder_of("b.jpg", "/base"), ".");
}

#[test]
fn test_scan_images_basic() {
    let base = "/scan";
    let files: Vec<String> = vec![
        format!("{}/image1.jpg", base),
        format!("{}/image2.png", base),
        format!("{}/image3.JPEG", base), // Test case insensitive
        format!("{}/document.txt", base),
        format!("{}/folder1/photo1.gif", base),
        format!("{}/folder1/photo2.bmp", base),
        format!("{}/folder2/image.webp", base),
        format!("{}/nested/subfolder/deep.png", base),
        format!("{}/no_extension", base),
    ];

    let mut app = app_with_directory(base);
    app.scan_images(&files);

    // Should find 7 image files (excluding .txt and no_extension)
    assert_eq!(app.images.len(), 7);

    if let Some(root_images) = find_group(&app, ".") {
        assert_eq!(root_images.indices.len(), 3); // image1.jpg, image2.png, image3.JPEG
    }
    assert!(find_group(&app, "folder1").is_some());
    assert!(find_group(&app, "folder2").is_some());
    assert!(find_group(&app, "nested/subfolder").is_some());

    let folder1_images = find_group(&app, "folder1").unwrap();
    assert_eq!(folder1_images.indices.len(), 2); // photo1.gif, photo2.bmp

    let folder2_images = find_group(&app, "folder2").unwrap();
    assert_eq!(folder2_images.indices.len(), 1); // image.webp

    let nested_images = find_group(&app, "nested/subfolder").unwrap();
    assert_eq!(nested_images.indices.len(), 1); // deep.png

    assert!(!app.loading);
}

#[test]
fn test_scan_images_empty_directory() {
    let mut app = app_with_directory("/scan");
    let files: Vec<String> = Vec::new();
    app.scan_images(&files);

    assert_eq!(app.images.len(), 0);
    assert!(app.folder_tree.is_empty());
    assert!(!app.loading);
}

#[test]
fn test_scan_images_nonexistent_directory() {
    // A walk of a directory that does not exist yields no files at all.
    let mut app = app_with_directory("/nonexistent/directory");
    let files: Vec<String> = Vec::new();
    app.scan_images(&files);

    assert_eq!(app.images.len(), 0);
    assert!(app.folder_tree.is_empty());
    assert!(!app.loading);
}

#[test]
fn test_end_to_end_image_scanning_and_organization() {
    let base = "/root-dir";
    let files: Vec<String> = vec![
        // Root level images
        format!("{}/desktop_bg.jpg", base),
        format!("{}/logo.png", base),
        // Vacation photos
        format!("{}/Photos/Vacation/beach1.jpg", base),
        format!("{}/Photos/Vacation/beach2.jpeg", base),
        format!("{}/Photos/Vacation/sunset.png", base),
        // Family photos
        format!("{}/Photos/Family/portrait.jpg", base),
        format!("{}/Photos/Family/group.gif", base),
        // Wallpapers
        format!("{}/Wallpapers/Nature/forest.jpg", base),
        format!("{}/Wallpapers/Nature/mountains.png", base),
        format!("{}/Wallpapers/Abstract/geometric.webp", base),
        format!("{}/Wallpapers/Abstract/colors.bmp", base),
        // Screenshots
        format!("{}/Screenshots/screen1.png", base),
        format!("{}/Screenshots/screen2.jpg", base),
        // Non-image files to test filtering
        format!("{}/readme.txt", base),
        format!("{}/Photos/video.mp4", base),
        format!("{}/config.yaml", base),
    ];

    let mut args = Args::default();
    args.directory = base.to_string();
    args.debug = true;
    args.thumbnail_size = 128;
    let mut app = BackgroundPickerApp::new(args, "/tmp/cache".to_string());
    app.scan_images(&files);

    // Should find 13 image files (excluding txt, mp4, yaml)
    assert_eq!(app.images.len(), 13);

    // Verify folder structure
    assert_eq!(app.folder_tree.len(), 6); // Root + 5 subdirectories

    if let Some(root_images) = find_group(&app, ".") {
        assert_eq!(root_images.indices.len(), 2); // desktop_bg.jpg, logo.png
    }

    let vacation_images = find_group(&app, "Photos/Vacation").unwrap();
    assert_eq!(vacation_images.indices.len(), 3); // beach1.jpg, beach2.jpeg, sunset.png

    let family_images = find_group(&app, "Photos/Family").unwrap();
    assert_eq!(family_images.indices.len(), 2); // portrait.jpg, group.gif

    let nature_images = find_group(&app, "Wallpapers/Nature").unwrap();
    assert_eq!(nature_images.indices.len(), 2); // forest.jpg, mountains.png

    let abstract_images = find_group(&app, "Wallpapers/Abstract").unwrap();
    assert_eq!(abstract_images.indices.len(), 2); // geometric.webp, colors.bmp

    let screenshot_images = find_group(&app, "Screenshots").unwrap();
    assert_eq!(screenshot_images.indices.len(), 2); // screen1.png, screen2.jpg

    // Verify all images have correct relative paths and fresh state
    for (i, image) in app.images.iter().enumerate() {
        assert!(!image.relative_path.is_empty());
        assert!(matches!(image.state, LoadState::NotRequested));

        println!("Image {}: {} -> {}", i, image.relative_path, image.path);
    }

    assert!(!app.loading);
}

#[test]
fn test_rescan_replaces_index_wholesale() {
    let mut app = app_with_directory("/scan");
    let first: Vec<String> = vec!["/scan/a.jpg".to_string(), "/scan/b/b.png".to_string()];
    app.scan_images(&first);
    assert_eq!(app.images.len(), 2);
    assert_eq!(app.folder_tree.len(), 2);

    let second: Vec<String> = vec!["/scan/c.gif".to_string()];
    app.scan_images(&second);
    assert_eq!(app.images.len(), 1);
    assert_eq!(app.folder_tree.len(), 1);
    assert_eq!(app.images[0].path, "/scan/c.gif");
    assert_eq!(app.images[0].relative_path, "c.gif");
}
