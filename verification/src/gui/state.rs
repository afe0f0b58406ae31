//! The interface state, and how it answers the results that background
//! workers send back.
use crate::keys::armor::{all_white, is_white_space, trim_bounds, trimmed};
use crate::text::text_chars;
use vstd::prelude::*;
use vstd::string::StrSliceExecFns;

verus! {

/// The tab on display.
#[derive(PartialEq, Eq, Structural, Clone, Copy)]
pub enum Tab {
    Shield,
    Unlock,
    IdentityManager,
    HowToUse,
}

/// Whether payloads are typed in or read from files.
#[derive(PartialEq, Eq, Structural, Clone, Copy)]
pub enum InputMode {
    Text,
    File,
}

/// Whether the container is sealed to one's own passphrase or to a
/// contact's public key.
#[derive(PartialEq, Eq, Structural, Clone, Copy)]
pub enum TargetMode {
    Me,
    Contact,
}

/// What a background worker reports when it finishes.
pub enum WorkerResult {
    EncryptionSuccess(String),
    DecryptionSuccess(Vec<u8>, String),
    IdentitySuccess(IdentityItem),
    Failure(String),
}

/// An identity of the session keyring.
pub struct IdentityItem {
    pub alias: String,
    pub public_key_text: String,
    pub public_key_display: String,
}

/// The state of the interface that its decisions read and write.
pub struct SessionState {
    pub current_tab: Tab,
    pub input_mode: InputMode,
    pub target_mode: TargetMode,
    pub real_passphrase: String,
    pub decoy_passphrase: String,
    pub contact_pub_key_path: String,
    pub contact_pub_key_bytes: String,
    pub input_real: String,
    pub input_decoy_text: String,
    pub file_real: String,
    pub file_decoy: String,
    pub output_name: String,
    pub use_decoy: bool,
    pub file_to_decrypt: String,
    pub unlock_passphrase: String,
    pub decrypted_bytes_output: Option<Vec<u8>>,
    pub decrypted_ext_output: String,
    pub alias_vault: String,
    pub passphrase_vault: String,
    pub identities: Vec<IdentityItem>,
    pub selected_identity_idx: Option<usize>,
    pub selected_identity_pub_key: String,
    pub is_loading: bool,
    pub status: String,
}

/// The choices of the interface that no worker result touches: the tab,
/// the input and target modes, the decoy switch and the contact key.
pub open spec fn kept_settings(a: SessionState, b: SessionState) -> bool {
    &&& b.current_tab == a.current_tab
    &&& b.input_mode == a.input_mode
    &&& b.target_mode == a.target_mode
    &&& b.use_decoy == a.use_decoy
    &&& b.contact_pub_key_path@ == a.contact_pub_key_path@
    &&& b.contact_pub_key_bytes@ == a.contact_pub_key_bytes@
}

/// The passphrases, payloads and output name of a sealing request are the
/// same in `a` and `b`.
pub open spec fn kept_sealing_inputs(a: SessionState, b: SessionState) -> bool {
    &&& b.real_passphrase@ == a.real_passphrase@
    &&& b.decoy_passphrase@ == a.decoy_passphrase@
    &&& b.input_real@ == a.input_real@
    &&& b.input_decoy_text@ == a.input_decoy_text@
    &&& b.file_real@ == a.file_real@
    &&& b.file_decoy@ == a.file_decoy@
    &&& b.output_name@ == a.output_name@
}

/// Every input of a sealing request is empty in `s`.
pub open spec fn sealing_inputs_cleared(s: SessionState) -> bool {
    &&& s.real_passphrase@.len() == 0
    &&& s.decoy_passphrase@.len() == 0
    &&& s.input_real@.len() == 0
    &&& s.input_decoy_text@.len() == 0
    &&& s.file_real@.len() == 0
    &&& s.file_decoy@.len() == 0
    &&& s.output_name@.len() == 0
}

/// The container and passphrase of an unlock request are the same in `a`
/// and `b`.
pub open spec fn kept_unlock_inputs(a: SessionState, b: SessionState) -> bool {
    &&& b.file_to_decrypt@ == a.file_to_decrypt@
    &&& b.unlock_passphrase@ == a.unlock_passphrase@
}

/// The extracted payload and its extension are the same in `a` and `b`.
pub open spec fn kept_extraction(a: SessionState, b: SessionState) -> bool {
    &&& b.decrypted_bytes_output == a.decrypted_bytes_output
    &&& b.decrypted_ext_output@ == a.decrypted_ext_output@
}

/// The keyring, its selection and the identity form are the same in `a`
/// and `b`.
pub open spec fn kept_keyring(a: SessionState, b: SessionState) -> bool {
    &&& b.identities@ == a.identities@
    &&& b.selected_identity_idx == a.selected_identity_idx
    &&& b.selected_identity_pub_key@ == a.selected_identity_pub_key@
    &&& b.alias_vault@ == a.alias_vault@
    &&& b.passphrase_vault@ == a.passphrase_vault@
}

/// The status shown when an extraction succeeds.
pub open spec fn extraction_success() -> Seq<char> {
    "SUCCESS: BLIND CONTAINER EXTRACTED CORRECTLY."@
}

/// The status shown when an identity joins the keyring.
pub open spec fn identity_bound() -> Seq<char> {
    "NEW IDENTITY BOUND TO EPHEMERAL KEYRING."@
}

/// Which identity stays selected when the one at `removed` leaves a keyring:
/// none if it was the selected one; the same identity, one place earlier,
/// if it came after; otherwise unchanged.
pub open spec fn selection_after_removal(selected: Option<usize>, removed: usize) -> Option<usize> {
    match selected {
        Some(i) => if i == removed {
            None
        } else if i > removed {
            Some((i - 1) as usize)
        } else {
            Some(i)
        },
        None => None,
    }
}

/// Why a sealing request cannot start, checked in this order: no output
/// name, no passphrase for a personal container, no key for a contact.
pub open spec fn shield_request_error(
    output_name: Seq<char>,
    target: TargetMode,
    real_passphrase: Seq<char>,
    contact_key: Seq<char>,
) -> Option<Seq<char>> {
    if all_white(output_name) {
        Some("ERROR: Please specify an output container name."@)
    } else if target == TargetMode::Me && real_passphrase.len() == 0 {
        Some("ERROR: Real passphrase cannot be empty."@)
    } else if target == TargetMode::Contact && all_white(contact_key) {
        Some("ERROR: Contact public key cannot be empty."@)
    } else {
        None
    }
}

/// Why an unlock request cannot start, checked in this order: no container
/// chosen, no passphrase.
pub open spec fn unlock_request_error(container: Seq<char>, passphrase: Seq<char>) -> Option<
    Seq<char>,
> {
    if container.len() == 0 {
        Some("ERROR: Please select a .diegox container to decrypt."@)
    } else if passphrase.len() == 0 {
        Some("ERROR: Extraction passphrase cannot be empty."@)
    } else {
        None
    }
}

/// The file name that a sealing request writes the container to: the
/// output name without surrounding white space, or a placeholder while the
/// name is blank, with the container extension.
pub open spec fn container_file_name_of(output_name: Seq<char>) -> Seq<char> {
    if all_white(output_name) {
        "output_filename.diegox"@
    } else {
        trimmed(output_name) + ".diegox"@
    }
}

/// Removing an identity keeps the selection on the identity that was
/// selected, wherever it stands in the keyring: in the shortened keyring
/// the selection points at that same identity. Only removing the selected
/// identity itself clears the selection, and with nothing selected nothing
/// is.
pub proof fn lemma_removal_keeps_selected_identity<T>(ids: Seq<T>, selected: usize, removed: usize)
    requires
        selected < ids.len(),
        removed < ids.len(),
    ensures
        selected == removed ==> selection_after_removal(Some(selected), removed) is None,
        selected != removed ==> (selection_after_removal(Some(selected), removed) matches Some(j)
            && j < ids.len() - 1 && ids.remove(removed as int)[j as int] == ids[selected as int]),
        selection_after_removal(None, removed) is None,
{
}

/// What decides whether a sealing request may start: a request without a
/// container name never starts; one sealed to a contact needs the contact's
/// key and never consults the real passphrase; one sealed to oneself needs
/// the real passphrase and never consults the contact key.
pub proof fn lemma_shield_request_needs(
    output_name: Seq<char>,
    real_passphrase: Seq<char>,
    other_passphrase: Seq<char>,
    contact_key: Seq<char>,
    other_key: Seq<char>,
)
    ensures
        all_white(output_name) ==> shield_request_error(
            output_name,
            TargetMode::Contact,
            real_passphrase,
            contact_key,
        ) is Some && shield_request_error(
            output_name,
            TargetMode::Me,
            real_passphrase,
            contact_key,
        ) is Some,
        !all_white(output_name) && !all_white(contact_key) ==> shield_request_error(
            output_name,
            TargetMode::Contact,
            real_passphrase,
            contact_key,
        ) is None,
        shield_request_error(output_name, TargetMode::Contact, real_passphrase, contact_key)
            == shield_request_error(output_name, TargetMode::Contact, other_passphrase, contact_key),
        !all_white(output_name) && real_passphrase.len() > 0 ==> shield_request_error(
            output_name,
            TargetMode::Me,
            real_passphrase,
            contact_key,
        ) is None,
        shield_request_error(output_name, TargetMode::Me, real_passphrase, contact_key)
            == shield_request_error(output_name, TargetMode::Me, real_passphrase, other_key),
{
}

/// `s` is empty once leading and trailing white space is removed.
fn is_blank(s: &str) -> (blank: bool)
    ensures
        blank == all_white(s@),
{
    let chars = text_chars(s);
    let mut k: usize = 0;
    while k < chars.len()
        invariant
            chars@ == s@,
            k <= chars@.len(),
            forall|i: int| 0 <= i < k ==> is_white_space(#[trigger] chars@[i]),
        decreases chars@.len() - k,
    {
        let u = chars[k] as u32;
        let white = (0x09 <= u && u <= 0x0D) || u == 0x20 || u == 0x85 || u == 0xA0 || u == 0x1680
            || (0x2000 <= u && u <= 0x200A) || u == 0x2028 || u == 0x2029 || u == 0x202F || u
            == 0x205F || u == 0x3000;
        if !white {
            return false;
        }
        k = k + 1;
    }
    true
}

impl SessionState {
    /// The state of a freshly opened interface.
    pub fn new() -> (st: SessionState)
        ensures
            st.current_tab == Tab::Shield,
            st.input_mode == InputMode::Text,
            st.target_mode == TargetMode::Me,
            st.real_passphrase@.len() == 0,
            st.decoy_passphrase@.len() == 0,
            st.contact_pub_key_path@.len() == 0,
            st.contact_pub_key_bytes@.len() == 0,
            st.input_real@.len() == 0,
            st.input_decoy_text@.len() == 0,
            st.file_real@.len() == 0,
            st.file_decoy@.len() == 0,
            st.output_name@.len() == 0,
            !st.use_decoy,
            st.file_to_decrypt@.len() == 0,
            st.unlock_passphrase@.len() == 0,
            st.decrypted_bytes_output is None,
            st.decrypted_ext_output@ == "txt"@,
            st.alias_vault@.len() == 0,
            st.passphrase_vault@.len() == 0,
            st.identities@.len() == 0,
            st.selected_identity_idx is None,
            st.selected_identity_pub_key@.len() == 0,
            !st.is_loading,
            st.status@ == "CSRP SYSTEM INITIALIZED. SECURE ENVIRONMENT."@,
    {
        SessionState {
            current_tab: Tab::Shield,
            input_mode: InputMode::Text,
            target_mode: TargetMode::Me,
            real_passphrase: String::new(),
            decoy_passphrase: String::new(),
            contact_pub_key_path: String::new(),
            contact_pub_key_bytes: String::new(),
            input_real: String::new(),
            input_decoy_text: String::new(),
            file_real: String::new(),
            file_decoy: String::new(),
            output_name: String::new(),
            use_decoy: false,
            file_to_decrypt: String::new(),
            unlock_passphrase: String::new(),
            decrypted_bytes_output: None,
            decrypted_ext_output: String::from_str("txt"),
            alias_vault: String::new(),
            passphrase_vault: String::new(),
            identities: Vec::new(),
            selected_identity_idx: None,
            selected_identity_pub_key: String::new(),
            is_loading: false,
            status: String::from_str("CSRP SYSTEM INITIALIZED. SECURE ENVIRONMENT."),
        }
    }

    /// Takes in what a background worker reports: the interface is no
    /// longer busy; a finished encryption shows its message and forgets the
    /// sealing inputs; a finished extraction keeps the payload and its
    /// extension and forgets the unlock inputs; a new identity joins the
    /// keyring and becomes the selection; a failure shows its message and
    /// forgets the unlock passphrase. Nothing else changes.
    pub fn apply_worker_result(&mut self, res: WorkerResult)
        requires
            res matches WorkerResult::IdentitySuccess(_) ==> old(self).identities@.len() < usize::MAX,
        ensures
            !final(self).is_loading,
            kept_settings(*old(self), *final(self)),
            match res {
                WorkerResult::EncryptionSuccess(msg) => {
                    &&& final(self).status@ == msg@
                    &&& sealing_inputs_cleared(*final(self))
                    &&& kept_unlock_inputs(*old(self), *final(self))
                    &&& kept_extraction(*old(self), *final(self))
                    &&& kept_keyring(*old(self), *final(self))
                },
                WorkerResult::DecryptionSuccess(bytes, ext) => {
                    &&& final(self).decrypted_bytes_output matches Some(b) && b@ == bytes@
                    &&& final(self).decrypted_ext_output@ == ext@
                    &&& final(self).status@ == extraction_success()
                    &&& final(self).unlock_passphrase@.len() == 0
                    &&& final(self).file_to_decrypt@.len() == 0
                    &&& kept_sealing_inputs(*old(self), *final(self))
                    &&& kept_keyring(*old(self), *final(self))
                },
                WorkerResult::IdentitySuccess(item) => {
                    &&& final(self).identities@ == old(self).identities@.push(item)
                    &&& final(self).selected_identity_idx == Some(old(self).identities@.len() as usize)
                    &&& final(self).selected_identity_pub_key@ == item.public_key_text@
                    &&& final(self).status@ == identity_bound()
                    &&& final(self).alias_vault@.len() == 0
                    &&& final(self).passphrase_vault@.len() == 0
                    &&& kept_sealing_inputs(*old(self), *final(self))
                    &&& kept_unlock_inputs(*old(self), *final(self))
                    &&& kept_extraction(*old(self), *final(self))
                },
                WorkerResult::Failure(err) => {
                    &&& final(self).status@ == err@
                    &&& final(self).unlock_passphrase@.len() == 0
                    &&& final(self).file_to_decrypt@ == old(self).file_to_decrypt@
                    &&& kept_sealing_inputs(*old(self), *final(self))
                    &&& kept_extraction(*old(self), *final(self))
                    &&& kept_keyring(*old(self), *final(self))
                },
            },
    {
        self.is_loading = false;
        match res {
            WorkerResult::EncryptionSuccess(msg) => {
                self.status = msg;
                self.real_passphrase = String::new();
                self.decoy_passphrase = String::new();
                self.input_real = String::new();
                self.input_decoy_text = String::new();
                self.file_real = String::new();
                self.file_decoy = String::new();
                self.output_name = String::new();
            },
            WorkerResult::DecryptionSuccess(bytes, ext) => {
                self.decrypted_bytes_output = Some(bytes);
                self.decrypted_ext_output = ext;
                self.status = String::from_str("SUCCESS: BLIND CONTAINER EXTRACTED CORRECTLY.");
                self.unlock_passphrase = String::new();
                self.file_to_decrypt = String::new();
            },
            WorkerResult::IdentitySuccess(item) => {
                let key_text = item.public_key_text.clone();
                self.identities.push(item);
                self.selected_identity_idx = Some(self.identities.len() - 1);
                self.selected_identity_pub_key = key_text;
                self.status = String::from_str("NEW IDENTITY BOUND TO EPHEMERAL KEYRING.");
                self.alias_vault = String::new();
                self.passphrase_vault = String::new();
            },
            WorkerResult::Failure(err) => {
                self.status = err;
                self.unlock_passphrase = String::new();
            },
        }
    }

    /// Removes identity `idx` from the keyring and keeps the selection on
    /// the same identity when it stays (dropping it when it is the one
    /// removed), and says so. Nothing else changes.
    pub fn remove_identity(&mut self, idx: usize)
        requires
            idx < old(self).identities@.len(),
        ensures
            final(self).identities@ == old(self).identities@.remove(idx as int),
            final(self).selected_identity_idx == selection_after_removal(
                old(self).selected_identity_idx,
                idx,
            ),
            old(self).selected_identity_idx == Some(idx) ==> final(self).selected_identity_pub_key@.len()
                == 0,
            old(self).selected_identity_idx != Some(idx) ==> final(self).selected_identity_pub_key@
                == old(self).selected_identity_pub_key@,
            match old(self).selected_identity_idx {
                Some(i) => i < old(self).identities@.len() && i != idx ==> (final(self).selected_identity_idx
                    matches Some(j) && j < final(self).identities@.len() && final(self).identities@[j as int]
                    == old(self).identities@[i as int]),
                None => final(self).selected_identity_idx is None,
            },
            final(self).status@ == "IDENTITY DELETED FROM EPHEMERAL KEYRING."@,
            final(self).alias_vault@ == old(self).alias_vault@,
            final(self).passphrase_vault@ == old(self).passphrase_vault@,
            final(self).is_loading == old(self).is_loading,
            kept_settings(*old(self), *final(self)),
            kept_sealing_inputs(*old(self), *final(self)),
            kept_unlock_inputs(*old(self), *final(self)),
            kept_extraction(*old(self), *final(self)),
    {
        match self.selected_identity_idx {
            Some(sel) => {
                if sel == idx {
                    self.selected_identity_idx = None;
                    self.selected_identity_pub_key = String::new();
                } else if sel > idx {
                    self.selected_identity_idx = Some(sel - 1);
                }
            },
            None => {},
        }
        self.identities.remove(idx);
        self.status = String::from_str("IDENTITY DELETED FROM EPHEMERAL KEYRING.");
    }

    /// Starts a sealing request where it can start: the interface becomes
    /// busy and says so. Otherwise it shows why not. Nothing else changes.
    pub fn start_shield_request(&mut self) -> (started: bool)
        ensures
            started == (shield_request_error(
                old(self).output_name@,
                old(self).target_mode,
                old(self).real_passphrase@,
                old(self).contact_pub_key_bytes@,
            ) is None),
            started ==> final(self).is_loading && final(self).status@
                == "Calculating matrices and deriving entropy in background thread..."@,
            !started ==> final(self).is_loading == old(self).is_loading && Some(final(self).status@)
                == shield_request_error(
                old(self).output_name@,
                old(self).target_mode,
                old(self).real_passphrase@,
                old(self).contact_pub_key_bytes@,
            ),
            kept_settings(*old(self), *final(self)),
            kept_sealing_inputs(*old(self), *final(self)),
            kept_unlock_inputs(*old(self), *final(self)),
            kept_extraction(*old(self), *final(self)),
            kept_keyring(*old(self), *final(self)),
    {
        match self.validate_shield_request() {
            Err(msg) => {
                self.status = msg;
                false
            },
            Ok(()) => {
                self.is_loading = true;
                self.status = String::from_str(
                    "Calculating matrices and deriving entropy in background thread...",
                );
                true
            },
        }
    }

    /// Starts an unlock request where it can start: the interface becomes
    /// busy, says so and drops the payload extracted before. Otherwise it
    /// shows why not. Nothing else changes.
    pub fn start_unlock_request(&mut self) -> (started: bool)
        ensures
            started == (unlock_request_error(
                old(self).file_to_decrypt@,
                old(self).unlock_passphrase@,
            ) is None),
            started ==> {
                &&& final(self).is_loading
                &&& final(self).status@
                    == "Executing constant time (XOR) operations in background thread..."@
                &&& final(self).decrypted_bytes_output is None
                &&& final(self).decrypted_ext_output@ == old(self).decrypted_ext_output@
            },
            !started ==> {
                &&& final(self).is_loading == old(self).is_loading
                &&& Some(final(self).status@) == unlock_request_error(
                    old(self).file_to_decrypt@,
                    old(self).unlock_passphrase@,
                )
                &&& kept_extraction(*old(self), *final(self))
            },
            kept_settings(*old(self), *final(self)),
            kept_sealing_inputs(*old(self), *final(self)),
            kept_unlock_inputs(*old(self), *final(self)),
            kept_keyring(*old(self), *final(self)),
    {
        if self.file_to_decrypt.as_str().is_empty() {
            self.status = String::from_str("ERROR: Please select a .diegox container to decrypt.");
            return false;
        }
        if self.unlock_passphrase.as_str().is_empty() {
            self.status = String::from_str("ERROR: Extraction passphrase cannot be empty.");
            return false;
        }
        self.is_loading = true;
        self.status = String::from_str(
            "Executing constant time (XOR) operations in background thread...",
        );
        self.decrypted_bytes_output = None;
        true
    }

    /// Starts deriving a new identity when both an alias and a passphrase
    /// were given: the interface becomes busy and says so. Otherwise nothing
    /// changes.
    pub fn start_identity_request(&mut self) -> (started: bool)
        ensures
            started == (old(self).alias_vault@.len() > 0 && old(self).passphrase_vault@.len() > 0),
            started ==> final(self).is_loading && final(self).status@
                == "Deriving post-quantum polynomial matrices in background..."@,
            !started ==> final(self).is_loading == old(self).is_loading && final(self).status@
                == old(self).status@,
            kept_settings(*old(self), *final(self)),
            kept_sealing_inputs(*old(self), *final(self)),
            kept_unlock_inputs(*old(self), *final(self)),
            kept_extraction(*old(self), *final(self)),
            kept_keyring(*old(self), *final(self)),
    {
        if self.alias_vault.as_str().is_empty() || self.passphrase_vault.as_str().is_empty() {
            return false;
        }
        self.is_loading = true;
        self.status = String::from_str("Deriving post-quantum polynomial matrices in background...");
        true
    }

    /// Selects identity `idx` of the keyring, whose public key text is then
    /// the one on display. Nothing else changes.
    pub fn select_identity(&mut self, idx: usize)
        requires
            idx < old(self).identities@.len(),
        ensures
            final(self).selected_identity_idx == Some(idx),
            final(self).selected_identity_pub_key@ == old(self).identities@[idx as int].public_key_text@,
            final(self).identities@ == old(self).identities@,
            final(self).alias_vault@ == old(self).alias_vault@,
            final(self).passphrase_vault@ == old(self).passphrase_vault@,
            final(self).status@ == old(self).status@,
            final(self).is_loading == old(self).is_loading,
            kept_settings(*old(self), *final(self)),
            kept_sealing_inputs(*old(self), *final(self)),
            kept_unlock_inputs(*old(self), *final(self)),
            kept_extraction(*old(self), *final(self)),
    {
        self.selected_identity_idx = Some(idx);
        self.selected_identity_pub_key = self.identities[idx].public_key_text.clone();
    }

    /// Whether a sealing request also seals the decoy slot to a key of its
    /// own: the decoy is on and has a passphrase.
    pub fn wants_decoy_key(&self) -> (wanted: bool)
        ensures
            wanted == (self.use_decoy && self.decoy_passphrase@.len() > 0),
    {
        self.use_decoy && !self.decoy_passphrase.as_str().is_empty()
    }

    /// The file name that a sealing request writes the container to.
    pub fn container_file_name(&self) -> (name: String)
        ensures
            name@ == container_file_name_of(self.output_name@),
    {
        let chars = text_chars(self.output_name.as_str());
        let (lo, hi) = trim_bounds(&chars);
        if lo == hi {
            return String::from_str("output_filename.diegox");
        }
        let mut name = String::from_str(self.output_name.as_str().substring_char(lo, hi));
        name.append(".diegox");
        name
    }

    /// Checks that a sealing request can start: an output name, and a
    /// passphrase or a contact key as the target demands.
    pub fn validate_shield_request(&self) -> (verdict: Result<(), String>)
        ensures
            match verdict {
                Ok(()) => shield_request_error(
                    self.output_name@,
                    self.target_mode,
                    self.real_passphrase@,
                    self.contact_pub_key_bytes@,
                ) is None,
                Err(msg) => shield_request_error(
                    self.output_name@,
                    self.target_mode,
                    self.real_passphrase@,
                    self.contact_pub_key_bytes@,
                ) == Some(msg@),
            },
            self.target_mode == TargetMode::Contact && !all_white(self.output_name@) && !all_white(
                self.contact_pub_key_bytes@,
            ) ==> verdict is Ok,
            self.target_mode == TargetMode::Me && !all_white(self.output_name@)
                && self.real_passphrase@.len() > 0 ==> verdict is Ok,
    {
        if is_blank(self.output_name.as_str()) {
            return Err(String::from_str("ERROR: Please specify an output container name."));
        }
        if self.target_mode == TargetMode::Me && self.real_passphrase.as_str().is_empty() {
            return Err(String::from_str("ERROR: Real passphrase cannot be empty."));
        }
        if self.target_mode == TargetMode::Contact && is_blank(self.contact_pub_key_bytes.as_str()) {
            return Err(String::from_str("ERROR: Contact public key cannot be empty."));
        }
        Ok(())
    }
}

} // verus!
