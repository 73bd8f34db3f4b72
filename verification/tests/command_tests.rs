use background_picker::args::Args;
use background_picker::batch::{chunk_count, chunk_progress, pool_size_for, should_report_progress,
    worker_pool_size};
use background_picker::command::{set_background_command, split_command, validate_command};
use background_picker::error::BackgroundPickerError;

#[test]
fn test_args_default_values() {
    let args = Args::default();

    assert_eq!(args.directory, ".");
    assert_eq!(args.thumbnail_size, 150);
    assert_eq!(args.command, "feh --bg-max");
    assert_eq!(args.selected_image_file, "selected-background.txt");
    assert!(!args.debug);
    assert!(!args.pregenerate);
}

#[test]
fn test_validate_command_valid() {
    let valid_commands = vec![
        "feh --bg-max",
        "gsettings set org.gnome.desktop.background picture-uri",
        "nitrogen --set-zoom-fill",
        "single_command",
    ];

    for command in valid_commands {
        assert!(validate_command(command).is_ok(), "Command should be valid: {}", command);
    }
}

#[test]
fn test_validate_command_empty() {
    let invalid_commands = vec![
        "",
        "   ", // Only whitespace
    ];

    for command in invalid_commands {
        assert!(validate_command(command).is_err(), "Command should be invalid: '{}'", command);
    }
}

#[test]
fn test_split_command_tokens() {
    assert_eq!(split_command("feh --bg-max"), vec!["feh", "--bg-max"]);
    assert_eq!(
        split_command("  gsettings   set  key "),
        vec!["gsettings", "set", "key"]
    );
    assert!(split_command("   ").is_empty());
    assert!(split_command("").is_empty());
}

#[test]
fn test_whitespace_is_unicode() {
    // Validation and splitting follow Unicode whitespace, as trimming does:
    // a lone vertical tab or no-break space is an empty command, and either
    // separates tokens.
    assert!(validate_command("\u{000b}").is_err());
    assert!(validate_command("\u{00a0}").is_err());
    assert!(validate_command(" \u{2003}\u{3000}").is_err());
    assert_eq!(split_command("feh\u{00a0}--bg-max"), vec!["feh", "--bg-max"]);
    assert_eq!(split_command("a\u{000b}b"), vec!["a", "b"]);
    assert!(set_background_command("\u{000b}", "/x.jpg").is_err());
}

#[test]
fn test_set_background_command_appends_path() {
    let argv = set_background_command("feh --bg-max", "/pics/wall.jpg").unwrap();
    assert_eq!(argv, vec!["feh", "--bg-max", "/pics/wall.jpg"]);
}

#[test]
fn test_set_background_command_empty_command() {
    let err = set_background_command("  ", "/pics/wall.jpg").unwrap_err();
    match &err {
        BackgroundPickerError::CommandExecution(msg) => assert_eq!(msg, "Empty command"),
        _ => panic!("wrong error variant"),
    }
    assert_eq!(err.message(), "Command execution failed: Empty command");
}

#[test]
fn test_error_messages() {
    let e1 = BackgroundPickerError::ThreadPoolCreation("boom".to_string());
    assert_eq!(e1.message(), "Failed to create thread pool: boom");
    let e2 = BackgroundPickerError::CacheDirectoryCreation("denied".to_string());
    assert_eq!(e2.message(), "Failed to create thumbnail cache directory: denied");
    let e3 = BackgroundPickerError::ThumbnailGeneration {
        path: "/p.jpg".to_string(),
        message: "bad data".to_string(),
    };
    assert_eq!(e3.message(), "Failed to generate thumbnail for /p.jpg: bad data");
    let e4 = BackgroundPickerError::SaveSelectedImage("disk full".to_string());
    assert_eq!(e4.message(), "Failed to save selected image path: disk full");
    let e5 = BackgroundPickerError::InvalidImageFile("/x".to_string());
    assert_eq!(e5.message(), "Invalid image file: /x");
    let e6 = BackgroundPickerError::LockAcquisition;
    assert_eq!(e6.message(), "Lock acquisition failed");
}

#[test]
fn test_pool_sizing() {
    assert_eq!(pool_size_for(1), 4);
    assert_eq!(pool_size_for(4), 4);
    assert_eq!(pool_size_for(16), 16);
    assert!(worker_pool_size() >= 4);
}

#[test]
fn test_chunk_accounting() {
    assert_eq!(chunk_count(0), 0);
    assert_eq!(chunk_count(1), 1);
    assert_eq!(chunk_count(100), 1);
    assert_eq!(chunk_count(101), 2);
    assert_eq!(chunk_count(230), 3);

    assert_eq!(chunk_progress(0, 230), 100);
    assert_eq!(chunk_progress(1, 230), 200);
    assert_eq!(chunk_progress(2, 230), 230);
}

#[test]
fn test_progress_reporting_threshold() {
    assert!(should_report_progress(51, false));
    assert!(!should_report_progress(51, true));
    assert!(!should_report_progress(50, false));
    assert!(!should_report_progress(13, false));
}
