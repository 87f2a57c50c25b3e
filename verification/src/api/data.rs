//! The response data shapes of the remote calls: plain records with no
//! algorithmic content, plus the few enumerations that travel as
//! strings or small integers on the wire.

use vstd::prelude::*;
use crate::message::{Message, MessageType};
use crate::text::{str_chars, chars_eq};

verus! {

/// Who a login belongs to.
#[derive(Debug)]
pub struct LoginInfo {
    pub user_id: i64,
    pub nickname: String,
}

/// One online model variant.
#[derive(Debug)]
pub struct ModelShowVariant {
    pub model_show: String,
    pub need_pay: bool,
}

/// The online model variants.
#[derive(Debug)]
pub struct ModelShowVariants {
    pub variants: Vec<ModelShowVariant>,
}

/// One online client device.
#[derive(Debug)]
pub struct ClientDevice {
    pub app_id: i64,
    pub device_name: String,
    pub device_kind: String,
}

/// The online client devices.
#[derive(Debug)]
pub struct ClientDevices {
    pub clients: Vec<ClientDevice>,
}

/// A profile's sex as the wire writes it.
#[derive(Debug, PartialEq, Eq, Structural)]
pub enum Sex {
    Male,
    Female,
    Unknown,
}

pub open spec fn sex_of_name(s: Seq<char>) -> Sex {
    if s == "male"@ {
        Sex::Male
    } else if s == "female"@ {
        Sex::Female
    } else {
        Sex::Unknown
    }
}

pub open spec fn sex_name(x: Sex) -> Seq<char> {
    match x {
        Sex::Male => "male"@,
        Sex::Female => "female"@,
        Sex::Unknown => "unknown"@,
    }
}

impl Sex {
    /// The value a wire string names; anything unrecognized is unknown.
    pub fn from_name(s: &str) -> (r: Sex)
        ensures
            r == sex_of_name(s@),
    {
        let v = str_chars(s);
        if chars_eq(&v, &str_chars("male")) {
            Sex::Male
        } else if chars_eq(&v, &str_chars("female")) {
            Sex::Female
        } else {
            Sex::Unknown
        }
    }

    /// The wire string of this value.
    pub fn to_string(&self) -> (r: String)
        ensures
            r@ == sex_name(*self),
    {
        match self {
            Sex::Male => "male".to_owned(),
            Sex::Female => "female".to_owned(),
            Sex::Unknown => "unknown".to_owned(),
        }
    }
}

/// What is known about a stranger.
#[derive(Debug)]
pub struct StrangerInfo {
    pub user_id: i64,
    pub nickname: String,
    pub sex: Sex,
    pub age: i32,
    pub qid: String,
    pub level: i32,
    pub login_days: i32,
}

/// One friend-list entry.
#[derive(Debug)]
pub struct Friend {
    pub user_id: i64,
    pub nickname: String,
    pub remark: String,
}

/// One unidirectional-friend entry.
#[derive(Debug)]
pub struct UnidirectionalFriend {
    pub user_id: i64,
    pub nickname: String,
    pub source: String,
}

/// The identifier of a sent message.
#[derive(Debug)]
pub struct MessageID {
    pub message_id: i32,
}

/// Who sent a message.
#[derive(Debug)]
pub struct Sender {
    pub nickname: String,
    pub user_id: i64,
}

/// One fetched message.
#[derive(Debug)]
pub struct Msg {
    pub group: bool,
    pub group_id: i64,
    pub message_id: i32,
    pub real_id: i32,
    pub message_type: MessageType,
    pub sender: Sender,
    pub time: i32,
    pub message: String,
    pub raw_message: String,
}

/// One element of a forwarded-messages bundle.
#[derive(Debug)]
pub struct ForwardMessage {
    pub content: Message,
    pub sender: Sender,
    pub time: i32,
}

/// The identifier of a sent forwarded-messages bundle.
#[derive(Debug)]
pub struct ForwardMessageID {
    pub message_id: i32,
    pub real_id: i32,
}

/// What is known about an image file.
#[derive(Debug)]
pub struct Image {
    pub size: i32,
    pub filename: String,
    pub url: String,
}

/// Whether a kind of content can be sent.
#[derive(Debug)]
pub struct CanSend {
    pub yes: bool,
}

/// One block of recognized text.
#[derive(Debug)]
pub struct TextDetection {
    pub text: String,
    pub confidence: i32,
    pub coordinates: [i32; 2],
}

/// The outcome of text recognition on an image.
#[derive(Debug)]
pub struct OCRImage {
    pub texts: Vec<TextDetection>,
    pub language: String,
}

/// A converted voice recording.
#[derive(Debug)]
pub struct Record {
    pub file: String,
}

/// What is known about a group.
#[derive(Debug)]
pub struct GroupInfo {
    pub group_id: i64,
    pub group_name: String,
    pub group_memo: String,
    pub group_create_time: u32,
    pub group_level: u32,
    pub member_count: i32,
    pub max_member_count: i32,
}

/// A member's role in a group.
#[derive(Debug, PartialEq, Eq, Structural)]
pub enum GroupRole {
    Owner,
    Admin,
    Member,
}

pub open spec fn role_of_name(s: Seq<char>) -> Option<GroupRole> {
    if s == "owner"@ {
        Some(GroupRole::Owner)
    } else if s == "admin"@ {
        Some(GroupRole::Admin)
    } else if s == "member"@ {
        Some(GroupRole::Member)
    } else {
        None
    }
}

pub open spec fn role_name(x: GroupRole) -> Seq<char> {
    match x {
        GroupRole::Owner => "owner"@,
        GroupRole::Admin => "admin"@,
        GroupRole::Member => "member"@,
    }
}

impl GroupRole {
    /// The role a wire string names, if any.
    pub fn from_name(s: &str) -> (r: Option<GroupRole>)
        ensures
            r == role_of_name(s@),
    {
        let v = str_chars(s);
        if chars_eq(&v, &str_chars("owner")) {
            Some(GroupRole::Owner)
        } else if chars_eq(&v, &str_chars("admin")) {
            Some(GroupRole::Admin)
        } else if chars_eq(&v, &str_chars("member")) {
            Some(GroupRole::Member)
        } else {
            None
        }
    }

    /// The wire string of this role.
    pub fn to_string(&self) -> (r: String)
        ensures
            r@ == role_name(*self),
    {
        match self {
            GroupRole::Owner => "owner".to_owned(),
            GroupRole::Admin => "admin".to_owned(),
            GroupRole::Member => "member".to_owned(),
        }
    }
}

/// What is known about a group member.
#[derive(Debug)]
pub struct GroupMemberInfo {
    pub group_id: i64,
    pub user_id: i64,
    pub nickname: String,
    pub card: String,
    pub sex: Sex,
    pub age: i32,
    pub area: String,
    pub join_time: i32,
    pub last_sent_time: i32,
    pub level: String,
    pub role: GroupRole,
    pub unfriendly: bool,
    pub title: String,
    pub title_expire_time: i64,
    pub card_changeable: bool,
    pub shut_up_timestamp: i64,
}

/// A kind of group honor.
#[derive(Debug, PartialEq, Eq, Structural)]
pub enum GroupHonorType {
    Talkative,
    Performer,
    Legend,
    StrongNewbie,
    Emotion,
    All,
}

pub open spec fn honor_of_name(s: Seq<char>) -> GroupHonorType {
    if s == "talkative"@ {
        GroupHonorType::Talkative
    } else if s == "performer"@ {
        GroupHonorType::Performer
    } else if s == "legend"@ {
        GroupHonorType::Legend
    } else if s == "strong_newbie"@ {
        GroupHonorType::StrongNewbie
    } else if s == "emotion"@ {
        GroupHonorType::Emotion
    } else {
        GroupHonorType::All
    }
}

pub open spec fn honor_name(x: GroupHonorType) -> Seq<char> {
    match x {
        GroupHonorType::Talkative => "talkative"@,
        GroupHonorType::Performer => "performer"@,
        GroupHonorType::Legend => "legend"@,
        GroupHonorType::StrongNewbie => "strong_newbie"@,
        GroupHonorType::Emotion => "emotion"@,
        GroupHonorType::All => "all"@,
    }
}

impl GroupHonorType {
    /// The honor a wire string names; anything unrecognized means all.
    pub fn from_name(s: &str) -> (r: GroupHonorType)
        ensures
            r == honor_of_name(s@),
    {
        let v = str_chars(s);
        if chars_eq(&v, &str_chars("talkative")) {
            GroupHonorType::Talkative
        } else if chars_eq(&v, &str_chars("performer")) {
            GroupHonorType::Performer
        } else if chars_eq(&v, &str_chars("legend")) {
            GroupHonorType::Legend
        } else if chars_eq(&v, &str_chars("strong_newbie")) {
            GroupHonorType::StrongNewbie
        } else if chars_eq(&v, &str_chars("emotion")) {
            GroupHonorType::Emotion
        } else {
            GroupHonorType::All
        }
    }

    /// The wire string of this honor.
    pub fn to_string(&self) -> (r: String)
        ensures
            r@ == honor_name(*self),
    {
        match self {
            GroupHonorType::Talkative => "talkative".to_owned(),
            GroupHonorType::Performer => "performer".to_owned(),
            GroupHonorType::Legend => "legend".to_owned(),
            GroupHonorType::StrongNewbie => "strong_newbie".to_owned(),
            GroupHonorType::Emotion => "emotion".to_owned(),
            GroupHonorType::All => "all".to_owned(),
        }
    }
}

/// The group's current talkative member.
#[derive(Debug)]
pub struct CurrentTalkativeWinner {
    pub user_id: i64,
    pub nickname: String,
    pub avatar: String,
    pub day_count: i32,
}

/// One holder of a group honor.
#[derive(Debug)]
pub struct GroupHonorWinner {
    pub user_id: i64,
    pub nickname: String,
    pub avatar: String,
    pub description: String,
}

/// The honor standing of a group.
#[derive(Debug)]
pub struct GroupHonorInfo {
    pub group_id: i64,
    pub current_talkative: CurrentTalkativeWinner,
    pub talkative_list: Vec<GroupHonorWinner>,
    pub performer_list: Vec<GroupHonorWinner>,
    pub legend_list: Vec<GroupHonorWinner>,
    pub strong_newbie_list: Vec<GroupHonorWinner>,
    pub emotion_list: Vec<GroupHonorWinner>,
}

/// A pending invitation into a group.
#[derive(Debug)]
pub struct InvitedRequest {
    pub request_id: i64,
    pub invitor_uin: i64,
    pub invitor_nick: String,
    pub group_id: i64,
    pub group_name: String,
    pub checked: bool,
    pub actor: i64,
}

/// A pending request to join a group.
#[derive(Debug)]
pub struct JoinRequest {
    pub request_id: i64,
    pub requester_uin: i64,
    pub requester_nick: String,
    pub message: String,
    pub group_id: i64,
    pub group_name: String,
    pub checked: bool,
    pub actor: i64,
}

/// The group's pending system messages.
#[derive(Debug)]
pub struct GroupSystemMsg {
    pub invited_requests: Vec<InvitedRequest>,
    pub join_requests: Vec<JoinRequest>,
}

/// One essence-message entry.
#[derive(Debug)]
pub struct EssenceMsg {
    pub sender_id: i64,
    pub sender_nick: String,
    pub sender_time: i64,
    pub operator_id: i64,
    pub operator_nick: String,
    pub operator_time: i64,
    pub message_id: i32,
}

/// How many at-all mentions remain.
#[derive(Debug)]
pub struct GroupAtAllRemain {
    pub can_at_all: bool,
    pub remain_at_all_count_for_group: i16,
    pub remain_at_all_count_for_uin: i16,
}

/// An anonymous group member, as the ban call wants it.
#[derive(Debug)]
pub struct AnonymousGroupMsg {
    id: i64,
    name: String,
    flag: String,
}

impl AnonymousGroupMsg {
    pub closed spec fn spec_id(&self) -> i64 {
        self.id
    }

    pub closed spec fn spec_name(&self) -> Seq<char> {
        self.name@
    }

    pub closed spec fn spec_flag(&self) -> Seq<char> {
        self.flag@
    }

    pub fn new(id: i64, name: String, flag: String) -> (r: AnonymousGroupMsg)
        ensures
            r.spec_id() == id,
            r.spec_name() == name@,
            r.spec_flag() == flag@,
    {
        AnonymousGroupMsg { id, name, flag }
    }
}

/// One image of a group notice.
#[derive(Debug)]
pub struct GroupNoticeImage {
    pub height: String,
    pub width: String,
    pub id: String,
}

/// The body of a group notice.
#[derive(Debug)]
pub struct GroupNoticeMessage {
    pub text: String,
    pub images: Vec<GroupNoticeImage>,
}

/// One group notice.
#[derive(Debug)]
pub struct GroupNotice {
    pub sender_id: i64,
    pub publish_time: i64,
    pub message: GroupNoticeMessage,
}

/// The group file system's usage.
#[derive(Debug)]
pub struct GroupFileSystemInfo {
    pub file_count: i32,
    pub limit_count: i32,
    pub used_space: i64,
    pub total_space: i64,
}

/// One group file.
#[derive(Debug)]
pub struct File {
    pub group_id: i64,
    pub file_id: String,
    pub file_name: String,
    pub busid: i32,
    pub file_size: i64,
    pub upload_time: i64,
    pub dead_time: i64,
    pub modify_time: i64,
    pub download_times: i32,
    pub uploader: i64,
    pub uploader_name: String,
}

/// One group folder.
#[derive(Debug)]
pub struct Folder {
    pub group_id: i64,
    pub folder_id: String,
    pub folder_name: String,
    pub create_time: i64,
    pub creator: i64,
    pub creator_name: String,
    pub total_file_count: i32,
}

/// The files and folders of one directory.
#[derive(Debug)]
pub struct GroupFiles {
    pub files: Vec<File>,
    pub folders: Vec<Folder>,
}

/// Where a group file can be downloaded.
#[derive(Debug)]
pub struct GroupFileUrl {
    pub url: String,
}

/// Cookies for the web interfaces.
#[derive(Debug)]
pub struct Cookies {
    pub cookies: String,
}

/// A CSRF token for the web interfaces.
#[derive(Debug)]
pub struct CSRFToken {
    pub token: i32,
}

/// Cookies and CSRF token together.
#[derive(Debug)]
pub struct Credentials {
    pub cookies: String,
    pub csrf_token: i32,
}

/// What the backend reports about itself.
#[derive(Debug)]
pub struct VersionInfo {
    pub app_name: String,
    pub app_version: String,
    pub app_full_name: String,
    pub protocol_name: i32,
    pub protocol_version: String,
    pub coolq_edition: String,
    pub coolq_directory: String,
    pub go_cqhttp: bool,
    pub plugin_version: String,
    pub plugin_build_number: i32,
    pub plugin_build_configuration: String,
    pub runtime_version: String,
    pub runtime_os: String,
    pub version: String,
}

/// Running counters.
#[derive(Debug)]
pub struct Statistics {
    pub packet_received: u64,
    pub packet_sent: u64,
    pub packet_lost: u32,
    pub message_received: u64,
    pub message_sent: u64,
    pub disconnect_times: u32,
    pub lost_times: u32,
    pub last_message_time: i64,
}

/// The backend's health.
#[derive(Debug)]
pub struct Status {
    pub app_initialized: bool,
    pub app_enabled: bool,
    pub plugins_good: bool,
    pub app_good: bool,
    pub online: bool,
    pub good: bool,
    pub stat: Statistics,
}

/// A file downloaded into the cache directory.
#[derive(Debug)]
pub struct DownloadedFile {
    pub file: String,
}

/// How safe a link is judged to be.
#[derive(Debug, PartialEq, Eq, Structural)]
pub enum UrlSafetyLevel {
    Safe,
    Unknown,
    Dangerous,
}

pub open spec fn safety_of_level(v: int) -> UrlSafetyLevel {
    if v == 1 {
        UrlSafetyLevel::Safe
    } else if v == 2 {
        UrlSafetyLevel::Unknown
    } else {
        UrlSafetyLevel::Dangerous
    }
}

impl UrlSafetyLevel {
    /// The level a wire number names; anything else is dangerous.
    pub fn from_level(v: i64) -> (r: UrlSafetyLevel)
        ensures
            r == safety_of_level(v as int),
    {
        if v == 1 {
            UrlSafetyLevel::Safe
        } else if v == 2 {
            UrlSafetyLevel::Unknown
        } else {
            UrlSafetyLevel::Dangerous
        }
    }
}

/// The safety judgement on a link.
#[derive(Debug)]
pub struct UrlSafety {
    pub level: UrlSafetyLevel,
}

/// The outcome of word segmentation.
#[derive(Debug)]
pub struct WordSlices {
    pub slices: Vec<String>,
}

} // verus!
