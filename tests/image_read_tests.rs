use agent_tools::image_read::{
    collect_images, is_supported_image_type, make_tool_description, pre_process_image_path, read_image, ImageBlock, ImageFormat, ImageRead,
    ImageSource, MAX_IMAGE_SIZE_BYTES,
};
use agent_tools::tools::{FileFacts, ToolExecutionError, ToolExecutionOutputItem};

fn file(len: u64) -> Result<FileFacts, String> {
    Ok(FileFacts { is_file: true, is_dir: false, len })
}

#[test]
fn test_is_supported_image_type() {
    assert!(is_supported_image_type("test.png"));
    assert!(is_supported_image_type("test.jpg"));
    assert!(is_supported_image_type("test.jpeg"));
    assert!(is_supported_image_type("test.gif"));
    assert!(is_supported_image_type("test.webp"));
    assert!(!is_supported_image_type("test.txt"));
    assert!(!is_supported_image_type("test"));
}

#[test]
fn supported_type_ignores_case_and_directories() {
    assert!(is_supported_image_type("/a.b/SHOT.PNG"));
    assert!(!is_supported_image_type("/a.png/file"));
    assert!(is_supported_image_type("/a.png/"));
    assert!(!is_supported_image_type(".png"));
}

#[test]
fn test_read_valid_image() {
    let tool = ImageRead { paths: vec!["/base/test.png".to_string()] };
    assert!(tool.validate(&vec![("/base/test.png".to_string(), file(67))]).is_ok());
    assert_eq!(read_image("/base/test.png", &file(67)), Ok(ImageFormat::Png));
    let out = collect_images(vec![Ok(ImageBlock { format: ImageFormat::Png, source: ImageSource::Bytes(vec![1, 2]) })]).unwrap();
    assert_eq!(out.items.len(), 1);
    if let ToolExecutionOutputItem::Image(image) = &out.items[0] {
        assert_eq!(image.format, ImageFormat::Png);
    }
}

#[test]
fn test_read_multiple_images() {
    let block = || Ok(ImageBlock { format: ImageFormat::Png, source: ImageSource::Bytes(vec![0]) });
    let out = collect_images(vec![block(), block()]).unwrap();
    assert_eq!(out.items.len(), 2);
    let err = collect_images(vec![block(), Err("gone".to_string()), Err("bad".to_string())]);
    match err {
        Err(ToolExecutionError::Custom(m)) => assert_eq!(m, "gone\nbad"),
        _ => panic!("expected the failures"),
    }
}

#[test]
fn test_validate_unsupported_format() {
    let tool = ImageRead { paths: vec!["/base/test.txt".to_string()] };
    let r = tool.validate(&vec![("/base/test.txt".to_string(), file(12))]);
    assert_eq!(r.unwrap_err(), "'/base/test.txt' is not a supported image type");
}

#[test]
fn test_validate_nonexistent_file() {
    let tool = ImageRead { paths: vec!["/nonexistent/image.png".to_string()] };
    let r = tool.validate(&vec![("/nonexistent/image.png".to_string(), Err("not found".to_string()))]);
    assert_eq!(r.unwrap_err(), "failed to read file metadata for path /nonexistent/image.png: not found");
}

#[test]
fn test_validate_directory_path() {
    let tool = ImageRead { paths: vec!["/base/dir.png".to_string()] };
    let r = tool.validate(&vec![("/base/dir.png".to_string(), Ok(FileFacts { is_file: false, is_dir: true, len: 0 }))]);
    assert_eq!(r.unwrap_err(), "'/base/dir.png' is not a file");
}

#[test]
fn validate_rejects_oversized_and_reports_all() {
    let tool = ImageRead { paths: vec![] };
    let r = tool.validate(&vec![
        ("/a.gif".to_string(), file(MAX_IMAGE_SIZE_BYTES + 1)),
        ("/b.bmp".to_string(), file(1)),
        ("/c.jpg".to_string(), file(MAX_IMAGE_SIZE_BYTES)),
    ]);
    assert_eq!(
        r.unwrap_err(),
        "'/a.gif' has size 10485761 which is greater than the max supported size of 10485760\n'/b.bmp' is not a supported image type"
    );
}

#[test]
fn read_image_reasons() {
    assert_eq!(read_image("/x/noext", &file(1)).unwrap_err(), "missing extension");
    assert_eq!(read_image("/x/a.TIFF", &file(1)).unwrap_err(), "unsupported format: tiff");
    assert_eq!(
        read_image("/x/a.webp", &file(MAX_IMAGE_SIZE_BYTES + 5)).unwrap_err(),
        "image at /x/a.webp has size 10485765 bytes, but the max supported size is 10485760"
    );
    assert_eq!(read_image("/x/a.JPEG", &file(5)), Ok(ImageFormat::Jpeg));
}

#[test]
fn description_lists_formats() {
    assert!(make_tool_description().contains("gif, jpeg, png, webp"));
}

#[test]
fn test_pre_process_image_path_macos() {
    let input = "/path/Screenshot 2025-03-13 at 1.46.32 PM.png";
    let expected = "/path/Screenshot 2025-03-13 at 1.46.32\u{202F}PM.png";
    assert_eq!(pre_process_image_path(input, true), expected);
    let two_digit_hour = "/p/Screenshot 2025-03-13 at 11.46.32 AM.png";
    assert_eq!(pre_process_image_path(two_digit_hour, true), "/p/Screenshot 2025-03-13 at 11.46.32\u{202F}AM.png");
    assert_eq!(pre_process_image_path("/p/Screenshot 2025-3-13 at 1.46.32 PM.png", true), "/p/Screenshot 2025-3-13 at 1.46.32 PM.png");
}

#[test]
fn test_pre_process_image_path_non_macos() {
    let input = "/path/Screenshot 2025-03-13 at 1.46.32 PM.png";
    assert_eq!(pre_process_image_path(input, false), input);
}

#[test]
fn unsupported_format_message_is_lower_cased_in_unicode() {
    assert_eq!(read_image("/x/a.\u{C9}", &file(1)).unwrap_err(), "unsupported format: \u{E9}");
}

#[test]
fn extension_ignores_trailing_separators() {
    assert!(is_supported_image_type("x/a.png/"));
    assert!(is_supported_image_type("x/a.png/."));
    assert!(!is_supported_image_type("x/.."));
    assert!(!is_supported_image_type("/"));
}
