//! What the library is, and what it can do.
use vstd::prelude::*;
use vstd::string::*;

verus! {

pub const CORE_VERSION: &'static str = "hns-browser-rust-core/0.2.3";

/// The name and version of the library, its features, and what it does when in
/// doubt, as JSON.
pub const DIAGNOSTICS: &'static str = "{\"core\":\"hns-browser-rust-core\",\"version\":\"0.2.3\",\"features\":[\"header-hash\",\"header-pow-validation\",\"header-mainnet-difficulty-retarget\",\"header-canonical-height-index\",\"hns-name-hash\",\"hns-dotted-root-label\",\"urkel-proof-verification\",\"urkel-proof-value-handoff\",\"hns-name-state-resource-extraction\",\"hns-resource-decoder\",\"hns-resource-provider-adapter\",\"hns-memory-resource-provider\",\"hns-sqlite-resource-provider\",\"hns-negative-cache\",\"hns-ttl-cache-lru\",\"hns-resource-cache-stats\",\"hns-resource-cache-eviction\",\"hns-resource-cache-cap-enforcement\",\"hns-resource-cache-chain-anchors\",\"hns-resource-cache-reorg-invalidation\",\"hns-resource-cache-current-tip\",\"hns-proof-backed-resolver-boundary\",\"hns-delegating-resolver-boundary\",\"hns-proof-backed-ns-address-hydration\",\"hns-authoritative-dnssec-delegated-resolver\",\"android-hns-doh-compat-resolver\",\"dns-wire\",\"dns-svcb-https\",\"dnssec-ds-dnskey-link\",\"dnssec-ds-sha1\",\"dnssec-ds-sha384\",\"dnssec-rrsig-signed-data\",\"dnssec-canonical-name-rdata\",\"dnssec-ecdsa-p256-verify\",\"dnssec-ecdsa-p384-verify\",\"dnssec-rsa-sha1-verify\",\"dnssec-rsa-sha256-sha512-verify\",\"dnssec-ed25519-verify\",\"dnssec-signed-rrset-validation\",\"dnssec-delegated-chain-validation\",\"dnssec-delegated-no-data-validation\",\"dnssec-delegated-name-error-validation\",\"dnssec-delegated-cname-chain\",\"dnssec-child-referral-validation\",\"dnssec-child-cname-chain\",\"dnssec-child-no-data-validation\",\"dnssec-child-name-error-validation\",\"dnssec-nsec-denial-validation\",\"dnssec-nsec3-denial-validation\",\"dnssec-nxdomain-name-error-validation\",\"dane-policy\",\"dane-certificate-chain-policy\",\"x509-spki-extraction\",\"p2p-codec\",\"p2p-tcp-peer-connection\",\"p2p-static-peer-source\",\"p2p-dns-seed-source\",\"p2p-getaddr-peer-discovery\",\"p2p-discovery-rotation\",\"p2p-peer-diversity\",\"p2p-sqlite-peer-store\",\"sync-coordinator\",\"sync-header-runner\",\"sync-multi-batch-header-runner\",\"sync-parallel-peer-probing\",\"sync-ranged-peer-rotation\",\"sync-proof-scheduler\",\"android-native-sync-once\",\"android-sync-status\",\"android-sync-outcome-status\",\"android-sync-progress-heights\",\"android-sync-high-batch-catchup\",\"android-clear-resolver-cache\",\"android-persistent-gateway-resolver\",\"android-gateway-live-proof-fetch\",\"android-gateway-header-forwarding\",\"android-gateway-range-forwarding\",\"android-gateway-body-forwarding\",\"android-gateway-file-body-stream\",\"android-webview-hns-intercept\",\"android-service-worker-hns-intercept\",\"android-hns-redirect-follow\",\"android-actionable-hns-errors\",\"hns-name-not-found-error\",\"gateway-policy\",\"gateway-hns-address-required\",\"gateway-tlsa-service-scope\",\"gateway-delegated-origin-address-lookup\",\"gateway-origin-address-query\",\"gateway-https-service-query\",\"gateway-svcb-alpn-policy\",\"gateway-actionable-nameserver-errors\",\"gateway-cname-address-routing\",\"android-proxy-gateway-hook\",\"android-random-loopback-proxy-port\",\"android-local-hns-connect-certs\",\"hns-websocket-native-tunnel\",\"http-origin-transport\",\"http-origin-connection-pooling\",\"http2-origin-transport\",\"http3-origin-transport\",\"http-origin-response-framing\",\"https-rustls-transport\",\"https-tls-session-resumption\",\"https-alt-svc-promotion\",\"dane-tls-policy\"],\"securityDefault\":\"fail-closed\"}";

pub fn core_version() -> (r: &'static str)
    ensures
        r@ == CORE_VERSION@,
{
    CORE_VERSION
}

pub fn diagnostics_json() -> (r: String)
    ensures
        r@ == DIAGNOSTICS@,
{
    DIAGNOSTICS.to_owned()
}

} // verus!
