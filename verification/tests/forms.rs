use file_relay::app::MyApp;
use file_relay::file_io::{FileInfo, FolderInfo};
use file_relay::network::{
    control_frame, FileDownloaderUi, FileSenderUi, TransferError, BUFFER_SIZE,
    CONTROL_FRAME_SIZE, PORT, RETRY_DELAY_MS,
};

fn sample_tree() -> FolderInfo {
    let mut sub = FolderInfo::new("root/sub".to_string(), 10, vec![]);
    sub.push_file(FileInfo::new("root/sub/b.txt".to_string(), 10));
    let mut root = FolderInfo::new("root".to_string(), 15, vec![]);
    root.push_file(FileInfo::new("root/a.txt".to_string(), 5));
    root.push_folder(sub);
    root
}

#[test]
fn constants_have_the_agreed_values() {
    assert_eq!(BUFFER_SIZE, 1024 * 16 * 16 * 16);
    assert_eq!(CONTROL_FRAME_SIZE, 1024);
    assert_eq!(PORT, 47102);
    assert_eq!(RETRY_DELAY_MS, 100);
}

#[test]
fn short_encoding_is_padded_with_zeros() {
    let frame = control_frame(&vec![1, 2, 3]).unwrap();
    assert_eq!(frame.len(), 1024);
    assert_eq!(&frame[0..3], &[1, 2, 3]);
    assert!(frame[3..].iter().all(|byte| *byte == 0));
}

#[test]
fn empty_encoding_gives_a_frame_of_zeros() {
    let frame = control_frame(&vec![]).unwrap();
    assert_eq!(frame, vec![0u8; 1024]);
}

#[test]
fn encoding_of_frame_size_is_taken_as_it_is() {
    let encoded: Vec<u8> = (0..1024).map(|i| (i % 251) as u8 + 1).collect();
    assert_eq!(control_frame(&encoded).unwrap(), encoded);
}

#[test]
fn encoding_over_frame_size_is_refused() {
    let encoded = vec![7u8; 1025];
    assert_eq!(control_frame(&encoded), Err(TransferError::Encoding));
    assert_eq!(control_frame(&vec![0u8; 5000]), Err(TransferError::Encoding));
}

#[test]
fn sender_form_starts_with_own_address() {
    let mut form = FileSenderUi::new();
    assert_eq!(form.address(), "192.168.55.47");
    let endpoint = form.submit().unwrap();
    assert_eq!(endpoint.ip, [192, 168, 55, 47]);
    assert_eq!(endpoint.port, 47102);
    assert_eq!(form.address(), "192.168.55.47");
}

#[test]
fn downloader_form_starts_with_default_sender() {
    let mut form = FileDownloaderUi::new();
    assert_eq!(form.address(), "58.229.94.229");
    assert_eq!(form.connection_label(), "");
    let endpoint = form.submit().unwrap();
    assert_eq!(endpoint.ip, [58, 229, 94, 229]);
    assert_eq!(endpoint.port, 47102);
}

#[test]
fn bad_address_is_replaced_by_the_error() {
    let mut form = FileSenderUi::new();
    form.set_address("192.168.55".to_string());
    assert!(form.submit().is_none());
    assert_eq!(form.address(), "invalid IPv4 address syntax");
    assert!(form.submit().is_none());

    let mut form = FileDownloaderUi::new();
    form.set_address("host.example".to_string());
    assert!(form.submit().is_none());
    assert_eq!(form.address(), "invalid IPv4 address syntax");
    assert_eq!(form.connection_label(), "");
}

#[test]
fn edited_address_is_used() {
    let mut form = FileDownloaderUi::new();
    form.set_address("10.0.0.7".to_string());
    let endpoint = form.submit().unwrap();
    assert_eq!(endpoint.ip, [10, 0, 0, 7]);
    assert_eq!(form.address(), "10.0.0.7");
}

#[test]
fn app_starts_with_nothing_selected() {
    let app = MyApp::new(sample_tree()).unwrap();
    assert!(app.file_system().selected_files().is_empty());
    assert_eq!(app.sender_ui().address(), "192.168.55.47");
    assert_eq!(app.downloader_ui().address(), "58.229.94.229");
}

#[test]
fn app_refuses_tree_with_repeated_path() {
    let mut root = FolderInfo::new("root".to_string(), 0, vec![]);
    root.push_file(FileInfo::new("root/a".to_string(), 1));
    let mut sub = FolderInfo::new("root/sub".to_string(), 0, vec![]);
    sub.push_file(FileInfo::new("root/a".to_string(), 2));
    root.push_folder(sub);
    assert!(MyApp::new(root).is_err());
}

#[test]
fn send_order_carries_a_copy_of_the_selection() {
    let mut app = MyApp::new(sample_tree()).unwrap();
    assert!(app.toggle_folder("root"));
    let order = app.request_send().unwrap();
    assert_eq!(order.endpoint.ip, [192, 168, 55, 47]);
    assert_eq!(order.endpoint.port, 47102);
    let paths: Vec<&str> = order.files.iter().map(|f| f.path.as_str()).collect();
    assert_eq!(paths, vec!["root/a.txt", "root/sub/b.txt"]);
    assert!(app.toggle_file("root/a.txt"));
    assert_eq!(order.files.len(), 2);
    assert_eq!(app.file_system().selected_files().len(), 1);
}

#[test]
fn send_order_needs_an_address() {
    let mut app = MyApp::new(sample_tree()).unwrap();
    app.set_sender_address("not an address".to_string());
    assert!(app.request_send().is_none());
    assert_eq!(app.sender_ui().address(), "invalid IPv4 address syntax");
    assert_eq!(app.downloader_ui().address(), "58.229.94.229");
}

#[test]
fn download_order_needs_an_address() {
    let mut app = MyApp::new(sample_tree()).unwrap();
    let endpoint = app.request_download().unwrap();
    assert_eq!(endpoint.ip, [58, 229, 94, 229]);
    app.set_downloader_address("1.2.3".to_string());
    assert!(app.request_download().is_none());
    assert_eq!(app.downloader_ui().address(), "invalid IPv4 address syntax");
    assert_eq!(app.sender_ui().address(), "192.168.55.47");
}

#[test]
fn app_toggles_reach_the_tree() {
    let mut app = MyApp::new(sample_tree()).unwrap();
    assert!(app.toggle_file("root/sub/b.txt"));
    assert!(!app.toggle_file("root/sub/none"));
    assert!(!app.toggle_folder("root/none"));
    let paths: Vec<&str> =
        app.file_system().selected_files().iter().map(|f| f.path.as_str()).collect();
    assert_eq!(paths, vec!["root/sub/b.txt"]);
}

#[test]
fn default_forms_are_empty() {
    let mut sender = FileSenderUi::default();
    assert_eq!(sender.address(), "");
    assert!(sender.submit().is_none());
    assert_eq!(sender.address(), "invalid IPv4 address syntax");
    let downloader = FileDownloaderUi::default();
    assert_eq!(downloader.address(), "");
    assert_eq!(downloader.connection_label(), "");
}
