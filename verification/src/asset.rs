//! Vocabulary of the defense layers: what an action does (`Capability`),
//! what it touches (`AssetClass`) and who asked for it (`Source`).
use vstd::prelude::*;

verus! {

/// What a tool call does.
#[derive(Debug, Clone, Copy, PartialEq, Eq, Structural)]
pub enum Capability {
    ReadFile,
    WriteFile,
    Execute,
    NetworkFetch,
    NetworkPost,
    SecretAccess,
    BrowserNavigate,
    BrowserDownload,
    McpInvoke,
}

/// What kind of asset a tool call touches.
#[derive(Debug, Clone, Copy, PartialEq, Eq, Structural)]
pub enum AssetClass {
    Project,
    Temp,
    Executable,
    Config,
    AiClientConfig,
    Credential,
    WalletData,
    BrowserData,
    Keychain,
    CloudMetadata,
    Log,
    External,
    Unknown,
}

/// Who originated a tool call.
#[derive(Debug, Clone, Copy, PartialEq, Eq, Structural)]
pub enum Source {
    User,
    Provider,
    Web,
    Mcp,
    Internal,
}

impl AssetClass {
    /// Asset classes that are never touched without an explicit user grant.
    pub open spec fn spec_is_hard_deny_for_auto(&self) -> bool {
        matches!(
            self,
            AssetClass::Credential | AssetClass::WalletData | AssetClass::BrowserData
                | AssetClass::Keychain | AssetClass::CloudMetadata
        )
    }

    /// True for credential, wallet, browser-profile, keychain and
    /// cloud-metadata assets.
    #[verifier::when_used_as_spec(spec_is_hard_deny_for_auto)]
    pub fn is_hard_deny_for_auto(&self) -> (b: bool)
        ensures
            b == self.spec_is_hard_deny_for_auto(),
    {
        match self {
            AssetClass::Credential | AssetClass::WalletData | AssetClass::BrowserData
            | AssetClass::Keychain | AssetClass::CloudMetadata => true,
            _ => false,
        }
    }
}

} // verus!
