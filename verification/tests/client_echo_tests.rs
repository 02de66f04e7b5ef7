use ref_exchange::client_echo_limit::{assert_client_echo_valid, extend_whitelist, matches_wildcard_pattern, remove_from_whitelist};
use ref_exchange::errors::ExchangeError;

fn list(items: &[&str]) -> Vec<String> {
    items.iter().map(|s| s.to_string()).collect()
}

#[test]
fn test_extend_client_echo_token_id_whitelist_success() {
    let mut whitelist: Vec<String> = vec![];
    let token_ids = list(&["token1.near", "token2.near"]);
    extend_whitelist(&mut whitelist, token_ids.clone(), true).unwrap();
    assert_eq!(whitelist.len(), 2);
    assert!(whitelist.contains(&"token1.near".to_string()));
    assert!(whitelist.contains(&"token2.near".to_string()));
}

#[test]
fn test_extend_client_echo_token_id_whitelist_with_wildcard() {
    let mut whitelist: Vec<String> = vec![];
    extend_whitelist(&mut whitelist, list(&["*.testnet", "token1.near"]), true).unwrap();
    assert_eq!(whitelist.len(), 2);
    assert!(whitelist.contains(&"*.testnet".to_string()));
    assert!(whitelist.contains(&"token1.near".to_string()));
}

#[test]
fn test_extend_client_echo_token_id_whitelist_invalid_wildcard() {
    let mut whitelist: Vec<String> = vec![];
    assert_eq!(extend_whitelist(&mut whitelist, list(&["*testnet"]), true), Err(ExchangeError::InvalidWildcard));
    assert!(whitelist.is_empty());
}

#[test]
fn test_extend_client_echo_token_id_whitelist_duplicate() {
    let mut whitelist: Vec<String> = vec![];
    let token_ids = list(&["token1.near"]);
    extend_whitelist(&mut whitelist, token_ids.clone(), true).unwrap();
    assert_eq!(extend_whitelist(&mut whitelist, token_ids, true), Err(ExchangeError::AlreadyInWhitelist));
    assert_eq!(whitelist.len(), 1);
}

#[test]
fn test_extend_client_echo_sender_id_whitelist_success() {
    let mut whitelist: Vec<String> = vec![];
    extend_whitelist(&mut whitelist, list(&["sender1.near", "sender2.testnet"]), false).unwrap();
    assert_eq!(whitelist.len(), 2);
    assert!(whitelist.contains(&"sender1.near".to_string()));
    assert!(whitelist.contains(&"sender2.testnet".to_string()));
}

#[test]
fn test_extend_client_echo_sender_id_whitelist_duplicate() {
    let mut whitelist: Vec<String> = vec![];
    let sender_ids = list(&["sender1.near"]);
    extend_whitelist(&mut whitelist, sender_ids.clone(), false).unwrap();
    assert_eq!(extend_whitelist(&mut whitelist, sender_ids, false), Err(ExchangeError::AlreadyInWhitelist));
}

#[test]
fn test_extend_secure_sender_whitelist_success() {
    let mut whitelist: Vec<String> = vec![];
    extend_whitelist(&mut whitelist, list(&["secure1.near", "secure2.testnet"]), true).unwrap();
    assert_eq!(whitelist.len(), 2);
    assert!(whitelist.contains(&"secure1.near".to_string()));
    assert!(whitelist.contains(&"secure2.testnet".to_string()));
}

#[test]
fn test_extend_secure_sender_whitelist_with_wildcard() {
    let mut whitelist: Vec<String> = vec![];
    extend_whitelist(&mut whitelist, list(&["*.mainnet", "secure1.near"]), true).unwrap();
    assert_eq!(whitelist.len(), 2);
    assert!(whitelist.contains(&"*.mainnet".to_string()));
    assert!(whitelist.contains(&"secure1.near".to_string()));
}

#[test]
fn test_extend_secure_sender_whitelist_invalid_wildcard() {
    let mut whitelist: Vec<String> = vec![];
    assert_eq!(extend_whitelist(&mut whitelist, list(&["*mainnet"]), true), Err(ExchangeError::InvalidWildcard));
}

#[test]
fn test_extend_secure_sender_whitelist_duplicate() {
    let mut whitelist: Vec<String> = vec![];
    let sender_ids = list(&["secure1.near"]);
    extend_whitelist(&mut whitelist, sender_ids.clone(), true).unwrap();
    assert_eq!(extend_whitelist(&mut whitelist, sender_ids, true), Err(ExchangeError::AlreadyInWhitelist));
}

#[test]
fn test_matches_wildcard_pattern_exact_match() {
    let whitelist = list(&["token1.near", "token2.testnet"]);
    assert!(matches_wildcard_pattern(&whitelist, &"token1.near".to_string()));
    assert!(matches_wildcard_pattern(&whitelist, &"token2.testnet".to_string()));
}

#[test]
fn test_matches_wildcard_pattern_wildcard_match() {
    let whitelist = list(&["*.near", "*.testnet"]);
    assert!(matches_wildcard_pattern(&whitelist, &"token1.near".to_string()));
    assert!(matches_wildcard_pattern(&whitelist, &"anythingelse.near".to_string()));
    assert!(matches_wildcard_pattern(&whitelist, &"my-token.testnet".to_string()));
}

#[test]
fn test_matches_wildcard_pattern_no_match() {
    let whitelist = list(&["token1.near", "*.testnet"]);
    assert!(!matches_wildcard_pattern(&whitelist, &"token2.near".to_string()));
    assert!(!matches_wildcard_pattern(&whitelist, &"something.mainnet".to_string()));
}

#[test]
fn test_matches_wildcard_pattern_mixed_exact_and_wildcard() {
    let whitelist = list(&["specific.near", "*.testnet"]);
    // Should match exact
    assert!(matches_wildcard_pattern(&whitelist, &"specific.near".to_string()));
    // Should match wildcard
    assert!(matches_wildcard_pattern(&whitelist, &"any.testnet".to_string()));
    // Should not match
    assert!(!matches_wildcard_pattern(&whitelist, &"other.near".to_string()));
}

#[test]
fn test_matches_wildcard_pattern_empty_whitelist() {
    let whitelist: Vec<String> = vec![];
    assert!(!matches_wildcard_pattern(&whitelist, &"any.near".to_string()));
}

#[test]
fn test_matches_wildcard_pattern_complex_wildcards() {
    let whitelist = list(&["*.swap.near", "*.farm.testnet"]);
    // Should match complex wildcard patterns
    assert!(matches_wildcard_pattern(&whitelist, &"ref.swap.near".to_string()));
    assert!(matches_wildcard_pattern(&whitelist, &"my-protocol.farm.testnet".to_string()));
    // Should not match partial patterns
    assert!(!matches_wildcard_pattern(&whitelist, &"swap.near".to_string()));
    assert!(!matches_wildcard_pattern(&whitelist, &"farm.testnet".to_string()));
}

#[test]
fn test_matches_wildcard_pattern_wildcard_without_asterisk() {
    // No asterisk, should be exact match only
    let whitelist = list(&["near"]);
    assert!(matches_wildcard_pattern(&whitelist, &"near".to_string()));
    assert!(!matches_wildcard_pattern(&whitelist, &"something.near".to_string()));
}

#[test]
fn client_echo_needs_both_lists_unless_secure() {
    let secure = list(&["*.secure.near"]);
    let tokens = list(&["token1.near"]);
    let senders = list(&["sender1.near"]);
    assert!(assert_client_echo_valid(&"any".to_string(), &"a.secure.near".to_string(), &secure, &tokens, &senders).is_ok());
    assert!(assert_client_echo_valid(&"token1.near".to_string(), &"sender1.near".to_string(), &secure, &tokens, &senders).is_ok());
    assert_eq!(
        assert_client_echo_valid(&"token2.near".to_string(), &"sender1.near".to_string(), &secure, &tokens, &senders),
        Err(ExchangeError::InvalidClientEchoTokenId)
    );
    assert_eq!(
        assert_client_echo_valid(&"token1.near".to_string(), &"sender2.near".to_string(), &secure, &tokens, &senders),
        Err(ExchangeError::InvalidClientEchoSenderId)
    );
}

#[test]
fn whitelist_removal() {
    let mut whitelist = list(&["a.near", "b.near", "c.near"]);
    remove_from_whitelist(&mut whitelist, list(&["b.near"])).unwrap();
    assert_eq!(whitelist, list(&["a.near", "c.near"]));
    assert_eq!(remove_from_whitelist(&mut whitelist, list(&["b.near"])), Err(ExchangeError::NotInWhitelist));
    assert_eq!(whitelist, list(&["a.near", "c.near"]));
}
