//! The state of the whole application: the tree with its selection and the
//! two address forms, and what each act of the operator makes of them.

use crate::address::{address_error_text, parsed_ipv4};
use crate::file_io::{clone_files, file_views, DuplicatePathError, FileInfo, FileSystem, FolderInfo};
use crate::network::{Endpoint, FileDownloaderUi, FileSenderUi, PORT};
use crate::tree_model::{distinct_paths, files_of, files_with_flag, FileSystemView, NodeView};
use vstd::prelude::*;

verus! {

/// What the application holds.
#[derive(Debug)]
struct State {
    file_system: FileSystem,
    downloader_ui: FileDownloaderUi,
    sender_ui: FileSenderUi,
}

/// The application.
#[derive(Debug)]
pub struct MyApp {
    state: State,
}

/// The application as the contracts see it.
pub struct MyAppView {
    pub file_system: FileSystemView,
    pub sender_address: Seq<char>,
    pub downloader_address: Seq<char>,
}

/// An order to send: where to listen, and the files to offer, as they were
/// selected at the moment of the order.
#[derive(Debug)]
pub struct SendRequest {
    pub endpoint: Endpoint,
    pub files: Vec<FileInfo>,
}

impl State {
    /// The state at the start: the tree as it was scanned, and the default
    /// addresses in the two forms.
    fn new(root: FolderInfo) -> (made: Result<State, DuplicatePathError>)
        ensures
            made is Ok <==> distinct_paths(files_of(root@.entries())),
            made matches Ok(state) ==> {
                &&& state.file_system.wf()
                &&& state.file_system@ == (FileSystemView {
                    tree: NodeView::Folder(root@, false),
                    selection: files_with_flag(root@.entries(), true),
                })
                &&& state.sender_ui@ == "192.168.55.47"@
                &&& state.downloader_ui@ == "58.229.94.229"@
            },
    {
        match FileSystem::new(root) {
            Ok(file_system) => Ok(
                State {
                    file_system,
                    downloader_ui: FileDownloaderUi::new(),
                    sender_ui: FileSenderUi::new(),
                },
            ),
            Err(error) => Err(error),
        }
    }
}

impl View for MyApp {
    type V = MyAppView;

    closed spec fn view(&self) -> MyAppView {
        MyAppView {
            file_system: self.state.file_system@,
            sender_address: self.state.sender_ui@,
            downloader_address: self.state.downloader_ui@,
        }
    }
}

impl MyApp {
    /// The tree and its list of selected files agree.
    pub open spec fn wf(&self) -> bool {
        self@.file_system.wf()
    }

    /// Starts the application on a scanned folder, with nothing selected but
    /// what the folder's flags say, and with the default addresses in the two
    /// forms. A folder in which two files share a path is refused.
    pub fn new(root: FolderInfo) -> (made: Result<MyApp, DuplicatePathError>)
        ensures
            made is Ok <==> distinct_paths(files_of(root@.entries())),
            made matches Ok(app) ==> app.wf() && app@ == (MyAppView {
                file_system: FileSystemView {
                    tree: NodeView::Folder(root@, false),
                    selection: files_with_flag(root@.entries(), true),
                },
                sender_address: "192.168.55.47"@,
                downloader_address: "58.229.94.229"@,
            }),
    {
        match State::new(root) {
            Ok(state) => Ok(MyApp { state }),
            Err(error) => Err(error),
        }
    }

    /// The tree and the selected files.
    pub fn file_system(&self) -> (file_system: &FileSystem)
        ensures
            file_system@ == self@.file_system,
    {
        &self.state.file_system
    }

    /// The address form of the sending side.
    pub fn sender_ui(&self) -> (form: &FileSenderUi)
        ensures
            form@ == self@.sender_address,
    {
        &self.state.sender_ui
    }

    /// The address form of the receiving side.
    pub fn downloader_ui(&self) -> (form: &FileDownloaderUi)
        ensures
            form@ == self@.downloader_address,
    {
        &self.state.downloader_ui
    }

    /// The operator clicked the file with the path `path`.
    pub fn toggle_file(&mut self, path: &str) -> (found: bool)
        requires
            old(self).wf(),
        ensures
            final(self).wf(),
            final(self)@ == (MyAppView {
                file_system: old(self)@.file_system.toggle_file(path@),
                sender_address: old(self)@.sender_address,
                downloader_address: old(self)@.downloader_address,
            }),
            found == (old(self)@.file_system.tree.find_file(path@) is Some),
    {
        self.state.file_system.toggle_file(path)
    }

    /// The operator ticked or cleared the box of the folder with the path `path`.
    pub fn toggle_folder(&mut self, path: &str) -> (found: bool)
        requires
            old(self).wf(),
        ensures
            final(self).wf(),
            final(self)@ == (MyAppView {
                file_system: old(self)@.file_system.toggle_folder(path@),
                sender_address: old(self)@.sender_address,
                downloader_address: old(self)@.downloader_address,
            }),
            found == (old(self)@.file_system.tree.find_folder(path@) is Some),
    {
        self.state.file_system.toggle_folder(path)
    }

    /// The operator edited the address of the sending side.
    pub fn set_sender_address(&mut self, text: String)
        ensures
            final(self)@ == (MyAppView {
                file_system: old(self)@.file_system,
                sender_address: text@,
                downloader_address: old(self)@.downloader_address,
            }),
    {
        self.state.sender_ui.set_address(text);
    }

    /// The operator edited the address of the receiving side.
    pub fn set_downloader_address(&mut self, text: String)
        ensures
            final(self)@ == (MyAppView {
                file_system: old(self)@.file_system,
                sender_address: old(self)@.sender_address,
                downloader_address: text@,
            }),
    {
        self.state.downloader_ui.set_address(text);
    }

    /// The operator pressed "Send File". Where the sending side's field holds
    /// an address, the order is to listen there and to offer a copy of the
    /// files that are selected now; later changes of the selection do not
    /// reach a transfer that has been ordered. Else there is no order, and
    /// the field shows the error.
    pub fn request_send(&mut self) -> (order: Option<SendRequest>)
        ensures
            order is Some <==> parsed_ipv4(old(self)@.sender_address) is Some,
            order matches Some(request) ==> request.endpoint.ip@ == parsed_ipv4(
                old(self)@.sender_address,
            )->0 && request.endpoint.port == PORT && file_views(request.files@)
                == old(self)@.file_system.selection && final(self)@ == old(self)@,
            order is None ==> final(self)@ == (MyAppView {
                file_system: old(self)@.file_system,
                sender_address: address_error_text(),
                downloader_address: old(self)@.downloader_address,
            }),
    {
        match self.state.sender_ui.submit() {
            Some(endpoint) => {
                let files = clone_files(self.state.file_system.selected_files());
                Some(SendRequest { endpoint, files })
            },
            None => None,
        }
    }

    /// The operator pressed "Download File". Where the receiving side's
    /// field holds an address, the order is to connect there. Else there is
    /// no order, and the field shows the error.
    pub fn request_download(&mut self) -> (order: Option<Endpoint>)
        ensures
            order is Some <==> parsed_ipv4(old(self)@.downloader_address) is Some,
            order matches Some(endpoint) ==> endpoint.ip@ == parsed_ipv4(
                old(self)@.downloader_address,
            )->0 && endpoint.port == PORT && final(self)@ == old(self)@,
            order is None ==> final(self)@ == (MyAppView {
                file_system: old(self)@.file_system,
                sender_address: old(self)@.sender_address,
                downloader_address: address_error_text(),
            }),
    {
        self.state.downloader_ui.submit()
    }
}

} // verus!
