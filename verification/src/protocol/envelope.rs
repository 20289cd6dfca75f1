//! The control-plane messages exchanged through the relay.
//!
//! These are plain data; how they are written as JSON is left to the application layer.

use vstd::prelude::*;

verus! {

#[allow(non_camel_case_types)]
#[derive(Debug, Clone, Copy, PartialEq, Eq, Structural)]
pub enum ActionType {
    AUTH_CHALLENGE,
    AUTH_REQUEST,
    AUTH_RESPONSE,
    HEARTBEAT_PING,
    HEARTBEAT_PONG,
    DEVICE_ONLINE,
    DEVICE_OFFLINE,
    DEVICE_LIST_SYNC,
    TRANSFER_OFFER,
    TRANSFER_ANSWER,
    TRANSFER_CANCEL,
    TRANSFER_FAILURE,
    TRANSFER_COMPLETE,
    CLIPBOARD_INJECTED,
}

#[derive(Debug, Clone)]
pub struct AuthChallengePayload {
    pub nonce_salt: String,
    pub server_time: i64,
}

#[derive(Debug, Clone)]
pub struct AuthRequestPayload {
    pub account_id: String,
    pub device_id: String,
    pub hostname: String,
    pub os_type: String,
    pub app_version: String,
    pub signature: String,
    pub nonce: String,
    pub timestamp: i64,
}

/// The transfer limits the server hands out after authentication. A limit of `0` (or any
/// value `<= 0`) means "no limit" for that item.
#[derive(Debug, Clone, Copy, PartialEq, Eq, Structural)]
pub struct ServerLimits {
    pub max_single_file_bytes: i64,
    pub max_total_transfer_bytes: i64,
    pub max_clipboard_image_bytes: i64,
    pub max_clipboard_text_bytes: i64,
    pub max_items_per_offer: i32,
    pub max_concurrent_transfers: i32,
}

/// Whether `actual` is over `limit`, where a limit of zero or less means unlimited.
pub open spec fn spec_exceeds(limit: int, actual: int) -> bool {
    limit > 0 && actual > limit
}

impl ServerLimits {
    /// Whether `actual` is over `limit`; a limit `<= 0` never rejects anything.
    pub fn exceeds(limit: i64, actual: i64) -> (r: bool)
        ensures
            r == spec_exceeds(limit as int, actual as int),
    {
        limit > 0 && actual > limit
    }
}

#[derive(Debug, Clone)]
pub struct AuthResponsePayload {
    pub success: bool,
    pub error_code: Option<String>,
    pub error_message: Option<String>,
    pub assigned_id: Option<String>,
    /// Old servers send no limits; the client then keeps its own fallback values.
    pub limits: Option<ServerLimits>,
}

#[derive(Debug, Clone)]
pub struct OnlineDevice {
    pub device_id: String,
    pub hostname: String,
    pub os_type: String,
    pub app_version: String,
    pub remote_ip: Option<String>,
}

#[derive(Debug, Clone)]
pub struct DeviceListSyncPayload {
    pub devices: Vec<OnlineDevice>,
}

#[derive(Debug, Clone)]
pub struct DeviceOnlinePayload {
    pub device: OnlineDevice,
}

#[derive(Debug, Clone)]
pub struct DeviceOfflinePayload {
    pub device_id: String,
    pub reason: Option<String>,
}

#[derive(Debug, Clone)]
pub struct TransferItemPayload {
    pub item_index: u32,
    pub relative_path: String,
    pub size: i64,
    pub is_dir: bool,
    pub sha256: String,
    pub total_chunks: u32,
}

#[derive(Debug, Clone)]
pub struct TransferOfferPayload {
    pub session_id: String,
    /// "TEXT", "IMAGE" or "FILES".
    pub data_type: String,
    pub total_size: i64,
    pub total_items: usize,
    pub preview_summary: String,
    pub encrypted: bool,
    /// The end-to-end encryption scheme the metadata is sealed with, when it is.
    pub e2ee_version: Option<u8>,
    /// The sealed item metadata, base64-encoded, when the offer is encrypted.
    pub encrypted_metadata: Option<String>,
    pub items: Vec<TransferItemPayload>,
}

/// The per-item fields that an encrypted offer carries only inside its sealed metadata.
#[derive(Debug, Clone)]
pub struct EncryptedItemMeta {
    pub item_index: u32,
    pub relative_path: String,
    pub sha256: String,
    pub is_dir: bool,
}

/// What an encrypted offer seals: the preview text and the sensitive item fields.
#[derive(Debug, Clone)]
pub struct EncryptedMetadata {
    pub preview_summary: String,
    pub items: Vec<EncryptedItemMeta>,
}

/// An item of an offer as the contracts see it: strings by their characters.
#[verifier::ext_equal]
pub struct TransferItemView {
    pub item_index: u32,
    pub relative_path: Seq<char>,
    pub size: i64,
    pub is_dir: bool,
    pub sha256: Seq<char>,
    pub total_chunks: u32,
}

/// An offer as the contracts see it.
#[verifier::ext_equal]
pub struct TransferOfferView {
    pub session_id: Seq<char>,
    pub data_type: Seq<char>,
    pub total_size: i64,
    pub total_items: usize,
    pub preview_summary: Seq<char>,
    pub encrypted: bool,
    pub e2ee_version: Option<u8>,
    pub encrypted_metadata: Option<Seq<char>>,
    pub items: Seq<TransferItemView>,
}

/// A sealed item's metadata as the contracts see it.
#[verifier::ext_equal]
pub struct ItemMetaView {
    pub item_index: u32,
    pub relative_path: Seq<char>,
    pub sha256: Seq<char>,
    pub is_dir: bool,
}

/// Sealed offer metadata as the contracts see it.
#[verifier::ext_equal]
pub struct MetadataView {
    pub preview_summary: Seq<char>,
    pub items: Seq<ItemMetaView>,
}

pub open spec fn opt_string_view(s: Option<String>) -> Option<Seq<char>> {
    match s {
        Some(t) => Some(t@),
        None => None,
    }
}

impl View for TransferItemPayload {
    type V = TransferItemView;

    open spec fn view(&self) -> TransferItemView {
        TransferItemView {
            item_index: self.item_index,
            relative_path: self.relative_path@,
            size: self.size,
            is_dir: self.is_dir,
            sha256: self.sha256@,
            total_chunks: self.total_chunks,
        }
    }
}

impl View for TransferOfferPayload {
    type V = TransferOfferView;

    open spec fn view(&self) -> TransferOfferView {
        TransferOfferView {
            session_id: self.session_id@,
            data_type: self.data_type@,
            total_size: self.total_size,
            total_items: self.total_items,
            preview_summary: self.preview_summary@,
            encrypted: self.encrypted,
            e2ee_version: self.e2ee_version,
            encrypted_metadata: opt_string_view(self.encrypted_metadata),
            items: self.items@.map_values(|it: TransferItemPayload| it@),
        }
    }
}

impl View for EncryptedItemMeta {
    type V = ItemMetaView;

    open spec fn view(&self) -> ItemMetaView {
        ItemMetaView {
            item_index: self.item_index,
            relative_path: self.relative_path@,
            sha256: self.sha256@,
            is_dir: self.is_dir,
        }
    }
}

impl View for EncryptedMetadata {
    type V = MetadataView;

    open spec fn view(&self) -> MetadataView {
        MetadataView {
            preview_summary: self.preview_summary@,
            items: self.items@.map_values(|m: EncryptedItemMeta| m@),
        }
    }
}

#[derive(Debug, Clone)]
pub struct ResumedItemPayload {
    pub item_index: u32,
    pub existing_chunks: Vec<u32>,
}

#[derive(Debug, Clone)]
pub struct TransferAnswerPayload {
    pub session_id: String,
    pub accepted: bool,
    pub reject_reason: Option<String>,
    pub resumed_items: Vec<ResumedItemPayload>,
    pub token: Option<String>,
}

#[derive(Debug, Clone)]
pub struct TransferFailurePayload {
    pub session_id: String,
    pub error_code: String,
    pub error_message: String,
    pub failed_item_index: Option<u32>,
}

#[derive(Debug, Clone)]
pub struct ClipboardInjectedPayload {
    pub session_id: String,
    pub injected_at: i64,
    pub item_count: usize,
}

} // verus!
