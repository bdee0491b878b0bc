//! Core errors. No variant carries note content: a parse error never shows
//! the text of the line it stopped at.
use vstd::prelude::*;

verus! {

/// What can go wrong in the core, one variant per behaviour the interface
/// needs to tell apart.
#[derive(Debug, Clone, PartialEq, Eq)]
pub enum CoreError {
    /// The configuration could not be read.
    Config,
    /// The index could not be opened.
    IndexOpen,
    /// An index query failed.
    IndexQuery,
    /// The application directory is unavailable.
    AppDirUnavailable,
    /// No vault has been chosen yet.
    VaultNotConfigured,
    /// The chosen folder cannot be read.
    VaultUnreadable,
    /// The file is not the version the caller read: it is never silently
    /// overwritten.
    Conflict,
    /// The target line is not the expected task, or the request cannot be
    /// written.
    TargetMismatch,
    /// A note without `arkeles_id` is read-only.
    NoteUnmanaged,
    /// The request is a semantic change, which belongs to Hermes.
    SemanticMutationRefused,
    /// The note has no frontmatter block; creating one is not mechanical.
    NoFrontmatter,
    /// The inbox file does not exist; it is never created.
    InboxMissing,
    /// The path leaves the vault.
    PathOutsideVault,
    /// The file could not be written.
    WriteFailed,
    /// Hermes could not be reached.
    HermesUnreachable,
    /// Hermes refused the credentials.
    HermesUnauthorized,
    /// Hermes did not answer in time.
    HermesTimeout,
    /// Hermes's short error message (never its stack trace).
    HermesRejected(String),
    /// Hermes answered in an unexpected shape.
    HermesMalformed,
    /// The action is not on the allowlist.
    ActionNotAllowed,
}

/// The stable code of an error, which the interface branches on.
pub open spec fn error_code(e: CoreError) -> Seq<char> {
    match e {
        CoreError::Conflict => "conflict"@,
        CoreError::TargetMismatch => "target_mismatch"@,
        CoreError::NoteUnmanaged => "note_unmanaged"@,
        CoreError::SemanticMutationRefused => "semantic_refused"@,
        CoreError::NoFrontmatter => "no_frontmatter"@,
        CoreError::InboxMissing => "inbox_missing"@,
        CoreError::PathOutsideVault => "path_outside_vault"@,
        CoreError::WriteFailed => "write_failed"@,
        CoreError::VaultNotConfigured => "vault_not_configured"@,
        CoreError::VaultUnreadable => "vault_unreadable"@,
        CoreError::Config => "config"@,
        CoreError::IndexOpen => "index"@,
        CoreError::IndexQuery => "index"@,
        CoreError::AppDirUnavailable => "app_dir"@,
        CoreError::HermesUnreachable => "hermes_unreachable"@,
        CoreError::HermesUnauthorized => "hermes_unauthorized"@,
        CoreError::HermesTimeout => "hermes_timeout"@,
        CoreError::HermesRejected(_) => "hermes_rejected"@,
        CoreError::HermesMalformed => "hermes_malformed_response"@,
        CoreError::ActionNotAllowed => "action_not_allowed"@,
    }
}

/// The human-readable message of an error.
pub open spec fn error_message(e: CoreError) -> Seq<char> {
    match e {
        CoreError::Config => "yapılandırma okunamadı"@,
        CoreError::IndexOpen => "index açılamadı"@,
        CoreError::IndexQuery => "index sorgusu başarısız"@,
        CoreError::AppDirUnavailable => "uygulama dizini bulunamadı"@,
        CoreError::VaultNotConfigured => "vault yapılandırılmadı"@,
        CoreError::VaultUnreadable => "seçilen klasör okunamıyor"@,
        CoreError::Conflict => "içerik başka bir kaynak tarafından değiştirildi"@,
        CoreError::TargetMismatch => "hedef bulunamadı veya değişmiş"@,
        CoreError::NoteUnmanaged => "bu not yönetilmiyor, yazılamaz"@,
        CoreError::SemanticMutationRefused => "bu işlem Hermes'in alanında"@,
        CoreError::NoFrontmatter => "notun frontmatter bölümü yok"@,
        CoreError::InboxMissing => "gelen kutusu dosyası yok"@,
        CoreError::PathOutsideVault => "yol vault dışında"@,
        CoreError::WriteFailed => "dosya yazılamadı"@,
        CoreError::HermesUnreachable => "Hermes'e ulaşılamadı"@,
        CoreError::HermesUnauthorized => "Hermes kimlik doğrulaması başarısız"@,
        CoreError::HermesTimeout => "Hermes zamanında yanıt vermedi"@,
        CoreError::HermesRejected(m) => m@,
        CoreError::HermesMalformed => "Hermes beklenmeyen bir cevap verdi"@,
        CoreError::ActionNotAllowed => "bu aksiyon tanımlı değil"@,
    }
}

impl CoreError {
    /// A stable code for the interface to branch on. The message may change;
    /// the code does not.
    pub fn code(&self) -> (c: &'static str)
        ensures
            c@ == error_code(*self),
    {
        match self {
            CoreError::Conflict => "conflict",
            CoreError::TargetMismatch => "target_mismatch",
            CoreError::NoteUnmanaged => "note_unmanaged",
            CoreError::SemanticMutationRefused => "semantic_refused",
            CoreError::NoFrontmatter => "no_frontmatter",
            CoreError::InboxMissing => "inbox_missing",
            CoreError::PathOutsideVault => "path_outside_vault",
            CoreError::WriteFailed => "write_failed",
            CoreError::VaultNotConfigured => "vault_not_configured",
            CoreError::VaultUnreadable => "vault_unreadable",
            CoreError::Config => "config",
            CoreError::IndexOpen => "index",
            CoreError::IndexQuery => "index",
            CoreError::AppDirUnavailable => "app_dir",
            CoreError::HermesUnreachable => "hermes_unreachable",
            CoreError::HermesUnauthorized => "hermes_unauthorized",
            CoreError::HermesTimeout => "hermes_timeout",
            CoreError::HermesRejected(_) => "hermes_rejected",
            CoreError::HermesMalformed => "hermes_malformed_response",
            CoreError::ActionNotAllowed => "action_not_allowed",
        }
    }

    /// The message shown to the user; it never holds a path or note text
    /// (only Hermes's own short refusal).
    pub fn message(&self) -> (m: String)
        ensures
            m@ == error_message(*self),
    {
        let s = match self {
            CoreError::HermesRejected(m) => {
                return m.clone();
            },
            CoreError::Config => "yapılandırma okunamadı",
            CoreError::IndexOpen => "index açılamadı",
            CoreError::IndexQuery => "index sorgusu başarısız",
            CoreError::AppDirUnavailable => "uygulama dizini bulunamadı",
            CoreError::VaultNotConfigured => "vault yapılandırılmadı",
            CoreError::VaultUnreadable => "seçilen klasör okunamıyor",
            CoreError::Conflict => "içerik başka bir kaynak tarafından değiştirildi",
            CoreError::TargetMismatch => "hedef bulunamadı veya değişmiş",
            CoreError::NoteUnmanaged => "bu not yönetilmiyor, yazılamaz",
            CoreError::SemanticMutationRefused => "bu işlem Hermes'in alanında",
            CoreError::NoFrontmatter => "notun frontmatter bölümü yok",
            CoreError::InboxMissing => "gelen kutusu dosyası yok",
            CoreError::PathOutsideVault => "yol vault dışında",
            CoreError::WriteFailed => "dosya yazılamadı",
            CoreError::HermesUnreachable => "Hermes'e ulaşılamadı",
            CoreError::HermesUnauthorized => "Hermes kimlik doğrulaması başarısız",
            CoreError::HermesTimeout => "Hermes zamanında yanıt vermedi",
            CoreError::HermesMalformed => "Hermes beklenmeyen bir cevap verdi",
            CoreError::ActionNotAllowed => "bu aksiyon tanımlı değil",
        };
        String::from_str(s)
    }
}

} // verus!
