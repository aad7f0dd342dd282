use fury_contracts::logo::{verify_png_logo, verify_xml_logo, verify_xml_preamble, EmbeddedLogo, Logo, LogoError, LogoInfo};
use fury_contracts::response::Msg;
use fury_contracts::token::{Cw20Coin, MarketingInfo, MinterData, Token, TokenError, VestingDetails};
use fury_contracts::token_marketing::{DownloadLogoResponse, MinterResponse, TokenInfoResponse};
use fury_contracts::token_setup::{validate, InstantiateMarketingInfo};
use fury_contracts::vesting::calculate_tokens_for_this_period;

/// The block time of the test environment, in nanoseconds.
const NOW: u64 = 1_571_797_419_879_305_533;
const PNG_HEADER: [u8; 8] = [0x89, b'P', b'N', b'G', 0x0d, 0x0a, 0x1a, 0x0a];

fn s(x: &str) -> String {
    x.to_string()
}

fn do_instantiate_full(addr: &str, amount: u128, mint: Option<MinterResponse>) -> Token {
    let mint_data = mint.as_ref().map(|m| MinterData { minter: m.minter.clone(), cap: m.cap });
    let t = Token::instantiate(
        s("Auto Gen"),
        s("AUTO"),
        3,
        vec![Cw20Coin { address: s(addr), amount }],
        mint_data,
        None,
        NOW,
    )
    .unwrap();
    assert_eq!(
        t.query_token_info(),
        TokenInfoResponse { name: s("Auto Gen"), symbol: s("AUTO"), decimals: 3, total_supply: amount }
    );
    assert_eq!(t.query_balance(&s(addr)), amount);
    assert_eq!(t.query_minter(), mint);
    t
}

fn do_instantiate(addr: &str, amount: u128) -> Token {
    do_instantiate_full(addr, amount, None)
}

fn do_instantiate_with_minter(addr: &str, amount: u128, minter: &str, cap: Option<u128>) -> Token {
    do_instantiate_full(addr, amount, Some(MinterResponse { minter: s(minter), cap }))
}

fn cash(balances: Vec<Cw20Coin>, mint: Option<MinterData>, marketing: Option<InstantiateMarketingInfo>) -> Result<Token, TokenError> {
    Token::instantiate(s("Cash Token"), s("CASH"), 9, balances, mint, marketing, NOW)
}

fn marketing_by(account: &str) -> Option<InstantiateMarketingInfo> {
    Some(InstantiateMarketingInfo {
        project: Some(s("Project")),
        description: Some(s("Description")),
        marketing: Some(s(account)),
        logo: Some(Logo::Url(s("url"))),
    })
}

fn info(project: Option<&str>, description: Option<&str>, marketing: Option<&str>, logo: LogoInfo) -> MarketingInfo {
    MarketingInfo {
        project: project.map(s),
        description: description.map(s),
        marketing: marketing.map(s),
        logo: Some(logo),
    }
}

fn url(u: &str) -> LogoInfo {
    LogoInfo::Url(s(u))
}

#[test]
fn contract_basic() {
    let amount = 11223344u128;
    let t = cash(vec![Cw20Coin { address: s("addr0000"), amount }], None, None).unwrap();
    assert_eq!(
        t.query_token_info(),
        TokenInfoResponse { name: s("Cash Token"), symbol: s("CASH"), decimals: 9, total_supply: amount }
    );
    assert_eq!(t.query_balance(&s("addr0000")), 11223344);
}

#[test]
fn contract_mintable() {
    let amount = 11223344u128;
    let limit = 511223344u128;
    let mint = Some(MinterData { minter: s("asmodat"), cap: Some(limit) });
    let t = cash(vec![Cw20Coin { address: s("addr0000"), amount }], mint, None).unwrap();
    assert_eq!(
        t.query_token_info(),
        TokenInfoResponse { name: s("Cash Token"), symbol: s("CASH"), decimals: 9, total_supply: amount }
    );
    assert_eq!(t.query_balance(&s("addr0000")), 11223344);
    assert_eq!(t.query_minter(), Some(MinterResponse { minter: s("asmodat"), cap: Some(limit) }));
}

#[test]
fn contract_mintable_over_cap() {
    let mint = Some(MinterData { minter: s("asmodat"), cap: Some(11223300) });
    let err = cash(vec![Cw20Coin { address: s("addr0000"), amount: 11223344 }], mint, None).err().unwrap();
    assert_eq!(err, TokenError::InitialSupplyOverCap);
}

#[test]
fn basic() {
    let t = cash(vec![], None, marketing_by("marketing")).unwrap();
    assert_eq!(
        t.query_marketing_info(),
        info(Some("Project"), Some("Description"), Some("marketing"), url("url"))
    );
    assert_eq!(t.query_download_logo(), Err(TokenError::LogoNotFound));
}

#[test]
fn contract_can_mint_by_minter() {
    let genesis = "genesis";
    let amount = 11223344u128;
    let mut t = do_instantiate_with_minter(genesis, amount, "asmodat", Some(511223344));
    let prize = 222_222_222u128;
    let res = t.execute_mint(&s("asmodat"), s("lucky"), prize).unwrap();
    assert_eq!(0, res.messages.len());
    assert_eq!(t.query_balance(&s(genesis)), amount);
    assert_eq!(t.query_balance(&s("lucky")), prize);
    // but cannot mint nothing
    assert_eq!(t.execute_mint(&s("asmodat"), s("lucky"), 0).err(), Some(TokenError::InvalidZeroAmount));
    // the cap holds over several rounds
    assert_eq!(t.execute_mint(&s("asmodat"), s("lucky"), 333_222_222).err(), Some(TokenError::CannotExceedCap));
}

#[test]
fn contract_others_cannot_mint() {
    let mut t = do_instantiate_with_minter("genesis", 1234, "minter", None);
    assert_eq!(t.execute_mint(&s("anyone else"), s("lucky"), 222).err(), Some(TokenError::Unauthorized));
}

#[test]
fn contract_no_one_mints_if_minter_unset() {
    let mut t = do_instantiate("genesis", 1234);
    assert_eq!(t.execute_mint(&s("genesis"), s("lucky"), 222).err(), Some(TokenError::Unauthorized));
}

#[test]
fn contract_instantiate_multiple_accounts() {
    let amount1 = 11223344u128;
    let amount2 = 7890987u128;
    let t = Token::instantiate(
        s("Bash Shell"),
        s("BASH"),
        6,
        vec![Cw20Coin { address: s("addr0001"), amount: amount1 }, Cw20Coin { address: s("addr0002"), amount: amount2 }],
        None,
        None,
        NOW,
    )
    .unwrap();
    assert_eq!(
        t.query_token_info(),
        TokenInfoResponse { name: s("Bash Shell"), symbol: s("BASH"), decimals: 6, total_supply: amount1 + amount2 }
    );
    assert_eq!(t.query_balance(&s("addr0001")), amount1);
    assert_eq!(t.query_balance(&s("addr0002")), amount2);
}

#[test]
fn contract_queries_work() {
    let amount1 = 12340000u128;
    let t = do_instantiate("addr0001", amount1);
    let expected = TokenInfoResponse { name: s("Auto Gen"), symbol: s("AUTO"), decimals: 3, total_supply: amount1 };
    assert_eq!(t.query_token_info(), expected);
    assert_eq!(t.query_balance(&s("addr0001")), amount1);
    assert_eq!(t.query_balance(&s("addr0002")), 0);
}

#[test]
fn contract_transfer() {
    let amount1 = 12340000u128;
    let transfer = 76543u128;
    let too_much = 12340321u128;
    let mut t = do_instantiate("addr0001", amount1);
    assert_eq!(t.execute_transfer(&s("addr0001"), s("addr0002"), 0).err(), Some(TokenError::InvalidZeroAmount));
    assert!(matches!(
        t.execute_transfer(&s("addr0001"), s("addr0002"), too_much).err(),
        Some(TokenError::CannotSub { .. })
    ));
    assert!(matches!(
        t.execute_transfer(&s("addr0002"), s("addr0001"), transfer).err(),
        Some(TokenError::CannotSub { .. })
    ));
    let res = t.execute_transfer(&s("addr0001"), s("addr0002"), transfer).unwrap();
    assert_eq!(res.messages.len(), 0);
    assert_eq!(t.query_balance(&s("addr0001")), amount1 - transfer);
    assert_eq!(t.query_balance(&s("addr0002")), transfer);
    assert_eq!(t.query_token_info().total_supply, amount1);
}

#[test]
fn contract_burn() {
    let amount1 = 12340000u128;
    let burn = 76543u128;
    let too_much = 12340321u128;
    let mut t = do_instantiate("addr0001", amount1);
    assert_eq!(t.execute_burn(&s("addr0001"), 0).err(), Some(TokenError::InvalidZeroAmount));
    assert_eq!(t.query_token_info().total_supply, amount1);
    assert!(matches!(t.execute_burn(&s("addr0001"), too_much).err(), Some(TokenError::CannotSub { .. })));
    assert_eq!(t.query_token_info().total_supply, amount1);
    let res = t.execute_burn(&s("addr0001"), burn).unwrap();
    assert_eq!(res.messages.len(), 0);
    assert_eq!(t.query_balance(&s("addr0001")), amount1 - burn);
    assert_eq!(t.query_token_info().total_supply, amount1 - burn);
}

#[test]
fn contract_send() {
    let amount1 = 12340000u128;
    let transfer = 76543u128;
    let too_much = 12340321u128;
    let send_msg = br#"{"some":123}"#.to_vec();
    let mut t = do_instantiate("addr0001", amount1);
    assert_eq!(
        t.execute_send(&s("addr0001"), s("addr0002"), 0, send_msg.clone()).err(),
        Some(TokenError::InvalidZeroAmount)
    );
    assert!(matches!(
        t.execute_send(&s("addr0001"), s("addr0002"), too_much, send_msg.clone()).err(),
        Some(TokenError::CannotSub { .. })
    ));
    let res = t.execute_send(&s("addr0001"), s("addr0002"), transfer, send_msg.clone()).unwrap();
    assert_eq!(res.messages.len(), 1);
    assert_eq!(
        res.messages[0],
        Msg::Receive { contract: s("addr0002"), sender: s("addr0001"), amount: transfer, msg: send_msg }
    );
    assert_eq!(t.query_balance(&s("addr0001")), amount1 - transfer);
    assert_eq!(t.query_balance(&s("addr0002")), transfer);
    assert_eq!(t.query_token_info().total_supply, amount1);
}

#[test]
fn contract_update_unauthorised() {
    let mut t = cash(vec![], None, marketing_by("marketing")).unwrap();
    let err = t
        .execute_update_marketing(&s("creator"), Some(s("New project")), Some(s("Better description")), Some(s("creator")))
        .err();
    assert_eq!(err, Some(TokenError::Unauthorized));
    assert_eq!(t.query_marketing_info(), info(Some("Project"), Some("Description"), Some("marketing"), url("url")));
    assert_eq!(t.query_download_logo(), Err(TokenError::LogoNotFound));
}

fn update(project: Option<&str>, description: Option<&str>, marketing: Option<&str>) -> Token {
    let mut t = cash(vec![], None, marketing_by("creator")).unwrap();
    let res = t
        .execute_update_marketing(&s("creator"), project.map(s), description.map(s), marketing.map(s))
        .unwrap();
    assert_eq!(res.messages, vec![]);
    t
}

#[test]
fn contract_update_project() {
    let t = update(Some("New project"), None, None);
    assert_eq!(t.query_marketing_info(), info(Some("New project"), Some("Description"), Some("creator"), url("url")));
    assert_eq!(t.query_download_logo(), Err(TokenError::LogoNotFound));
}

#[test]
fn contract_clear_project() {
    let t = update(Some(""), None, None);
    assert_eq!(t.query_marketing_info(), info(None, Some("Description"), Some("creator"), url("url")));
    assert_eq!(t.query_download_logo(), Err(TokenError::LogoNotFound));
}

#[test]
fn contract_update_description() {
    let t = update(None, Some("Better description"), None);
    assert_eq!(t.query_marketing_info(), info(Some("Project"), Some("Better description"), Some("creator"), url("url")));
    assert_eq!(t.query_download_logo(), Err(TokenError::LogoNotFound));
}

#[test]
fn contract_clear_description() {
    let t = update(None, Some(""), None);
    assert_eq!(t.query_marketing_info(), info(Some("Project"), None, Some("creator"), url("url")));
    assert_eq!(t.query_download_logo(), Err(TokenError::LogoNotFound));
}

#[test]
fn contract_update_marketing() {
    let t = update(None, None, Some("marketing"));
    assert_eq!(t.query_marketing_info(), info(Some("Project"), Some("Description"), Some("marketing"), url("url")));
    assert_eq!(t.query_download_logo(), Err(TokenError::LogoNotFound));
}

#[test]
fn contract_clear_marketing() {
    let t = update(None, None, Some(""));
    assert_eq!(t.query_marketing_info(), info(Some("Project"), Some("Description"), None, url("url")));
    assert_eq!(t.query_download_logo(), Err(TokenError::LogoNotFound));
}

#[test]
fn white_space_alone_clears_a_field_and_padding_is_kept() {
    let t = update(Some(" \t\u{3000}\u{a0}\n"), Some("  Better  "), None);
    assert_eq!(t.query_marketing_info(), info(None, Some("  Better  "), Some("creator"), url("url")));
}

fn upload(logo: Logo) -> (Token, Result<(), TokenError>) {
    let mut t = cash(vec![], None, marketing_by("creator")).unwrap();
    let r = t.execute_upload_logo(&s("creator"), logo).map(|res| assert_eq!(res.messages, vec![]));
    (t, r)
}

#[test]
fn contract_update_logo_url() {
    let (t, r) = upload(Logo::Url(s("new_url")));
    r.unwrap();
    assert_eq!(t.query_marketing_info(), info(Some("Project"), Some("Description"), Some("creator"), url("new_url")));
    assert_eq!(t.query_download_logo(), Err(TokenError::LogoNotFound));
}

#[test]
fn contract_update_logo_png() {
    let (t, r) = upload(Logo::Embedded(EmbeddedLogo::Png(PNG_HEADER.to_vec())));
    r.unwrap();
    assert_eq!(t.query_marketing_info(), info(Some("Project"), Some("Description"), Some("creator"), LogoInfo::Embedded));
    assert_eq!(
        t.query_download_logo().unwrap(),
        DownloadLogoResponse { mime_type: s("image/png"), data: PNG_HEADER.to_vec() }
    );
}

#[test]
fn contract_update_logo_svg() {
    let img = "<?xml version=\"1.0\"?><svg></svg>".as_bytes().to_vec();
    let (t, r) = upload(Logo::Embedded(EmbeddedLogo::Svg(img.clone())));
    r.unwrap();
    assert_eq!(t.query_marketing_info(), info(Some("Project"), Some("Description"), Some("creator"), LogoInfo::Embedded));
    assert_eq!(t.query_download_logo().unwrap(), DownloadLogoResponse { mime_type: s("image/svg+xml"), data: img });
}

fn refused(logo: Logo, expected: LogoError) {
    let (t, r) = upload(logo);
    assert_eq!(r, Err(TokenError::Logo(expected)));
    assert_eq!(t.query_marketing_info(), info(Some("Project"), Some("Description"), Some("creator"), url("url")));
    assert_eq!(t.query_download_logo(), Err(TokenError::LogoNotFound));
}

#[test]
fn contract_update_logo_png_oversized() {
    let img = [&PNG_HEADER[..], &[1; 6000][..]].concat();
    refused(Logo::Embedded(EmbeddedLogo::Png(img)), LogoError::LogoTooBig);
}

#[test]
fn contract_update_logo_svg_oversized() {
    let img = ["<?xml version=\"1.0\"?><svg>", std::str::from_utf8(&[b'x'; 6000]).unwrap(), "</svg>"]
        .concat()
        .into_bytes();
    refused(Logo::Embedded(EmbeddedLogo::Svg(img)), LogoError::LogoTooBig);
}

#[test]
fn contract_update_logo_png_invalid() {
    refused(Logo::Embedded(EmbeddedLogo::Png(vec![1])), LogoError::InvalidPngHeader);
}

#[test]
fn contract_update_logo_svg_invalid() {
    refused(Logo::Embedded(EmbeddedLogo::Svg(vec![1])), LogoError::InvalidXmlPreamble);
}

#[test]
fn contract_transfer_to_categories() {
    let amount = 1000u128;
    let mut t = do_instantiate("addr0001", amount);
    let from0 = t.query_balance(&s("addr0001"));
    let to0 = t.query_balance(&s("addr0002"));
    let _ = t.distribute_vested(s("addr0001"), s("addr0002"), amount);
    assert_eq!(from0 - amount, t.query_balance(&s("addr0001")));
    assert_eq!(to0 + amount, t.query_balance(&s("addr0002")));
}

#[test]
fn contract_fail_transfer_to_categories() {
    let mut t = do_instantiate("addr0001", 1000);
    let from0 = t.query_balance(&s("addr0001"));
    let to0 = t.query_balance(&s("addr0002"));
    let amount = from0 + 1000;
    let _ = t.distribute_vested(s("addr0001"), s("addr0002"), amount);
    assert_eq!(t.query_balance(&s("addr0001")), from0);
    assert_eq!(t.query_balance(&s("addr0002")), to0);
}

fn get_vesting_details() -> VestingDetails {
    VestingDetails {
        category_address: Some(s("terra1e7maadq8sdk6aqaz2vwzxrsfr3tu8svz2sw850")),
        cliff_period: 0,
        initial_vesting_consumed: 0,
        initial_vesting_count: 1680000000000,
        last_claimed_timestamp: 1635835145194509256,
        last_vesting_timestamp: 1635835210499741601,
        tokens_available_to_claim: 1680000000000,
        total_claimed_tokens_till_now: 0,
        total_vesting_token_count: 16800000000000,
        vesting_count_per_period: 84000000000,
        vesting_periodicity: 300,
        vesting_start_timestamp: 1635835145194509256,
    }
}

#[test]
fn contract_test_vesting() {
    let _spender_address = s("addr0001");
    let _category_address = s("addr0002");
    let _now = NOW;
    let _vesting_details = get_vesting_details();
}

#[test]
fn test_vesting_at_tge() {
    let _spender_address = s("addr0001");
    let category_address = s("addr0002");
    let _now = NOW;
    let _now = 1_635_791_182_247_090_323u64 + ((30 * 24 * 60 * 60) + 650) * 1_000_000_000;
    let now = 1_635_830_827_569_351_342u64 + 850 * 1_000_000_000;
    let mut vesting_details = get_vesting_details();
    vesting_details.tokens_available_to_claim += vesting_details.vesting_count_per_period;
    match calculate_tokens_for_this_period(category_address, now, vesting_details) {
        Ok(va) => assert_eq!(va.amount, 1234),
        Err(e) => {
            println!("error = {:?}", e);
            assert_eq!(1, 0);
        }
    }
}

#[test]
fn a_schedule_asked_before_its_start_grants_the_fixed_amount() {
    let v = calculate_tokens_for_this_period(s("addr0002"), NOW, get_vesting_details()).unwrap();
    assert_eq!(v.amount, 1234);
    assert_eq!(v.spender_address, s("addr0002"));
    assert_eq!(v.category_address, Some(s("terra1e7maadq8sdk6aqaz2vwzxrsfr3tu8svz2sw850")));
}

#[test]
fn the_amount_before_the_start_is_capped_by_the_total() {
    let mut d = get_vesting_details();
    d.total_vesting_token_count = d.tokens_available_to_claim + 1000;
    let v = calculate_tokens_for_this_period(s("addr0002"), NOW, d).unwrap();
    assert_eq!(v.amount, 1000);
}

#[test]
fn vesting_counts_whole_periods_since_the_last_vesting() {
    let mut d = get_vesting_details();
    d.tokens_available_to_claim = 0;
    d.last_vesting_timestamp = d.vesting_start_timestamp;
    // seven and a half periods of 300 s after the start
    let now = d.vesting_start_timestamp + 2_250 * 1_000_000_000;
    let seeded = calculate_tokens_for_this_period(s("w"), now, clone_details(&d)).unwrap();
    // the seed not yet consumed comes along with the periods
    assert_eq!(seeded.amount, 1680000000000 + 7 * 84000000000);
    d.initial_vesting_consumed = d.initial_vesting_count;
    let v = calculate_tokens_for_this_period(s("w"), now, d).unwrap();
    assert_eq!(v.amount, 7 * 84000000000);
}

fn clone_details(d: &VestingDetails) -> VestingDetails {
    VestingDetails { category_address: d.category_address.clone(), ..*d }
}

#[test]
fn vesting_stops_at_the_total() {
    let mut d = get_vesting_details();
    d.last_vesting_timestamp = d.vesting_start_timestamp;
    d.total_claimed_tokens_till_now = 16800000000000 - 1680000000000 - 5;
    let now = d.vesting_start_timestamp + 3_000 * 1_000_000_000;
    let v = calculate_tokens_for_this_period(s("w"), now, d).unwrap();
    assert_eq!(v.amount, 5);
}

#[test]
fn a_schedule_without_period_vests_nothing() {
    let mut d = get_vesting_details();
    d.vesting_periodicity = 0;
    assert_eq!(calculate_tokens_for_this_period(s("w"), NOW, d).err(), Some(TokenError::NoVestingForAddress));
}

#[test]
fn names_symbols_and_decimals_are_checked() {
    assert_eq!(validate(&s("ab"), &s("CASH"), 6), Err(TokenError::InvalidName));
    assert_eq!(validate(&s(&"n".repeat(51)), &s("CASH"), 6), Err(TokenError::InvalidName));
    assert_eq!(validate(&s("Cash Token"), &s("CA"), 6), Err(TokenError::InvalidSymbol));
    assert_eq!(validate(&s("Cash Token"), &s("CA5H"), 6), Err(TokenError::InvalidSymbol));
    assert_eq!(validate(&s("Cash Token"), &s("CASH-TOKEN"), 6), Ok(()));
    assert_eq!(validate(&s("Cash Token"), &s("CASH"), 19), Err(TokenError::InvalidDecimals));
    assert_eq!(validate(&s("Cash Token"), &s("CASH"), 18), Ok(()));
}

#[test]
fn logo_checks() {
    assert_eq!(verify_xml_preamble(b"<?xml version=\"1.0\"?><svg/>"), Ok(()));
    assert_eq!(verify_xml_preamble(b"  <?xml version=\"1.0\"?><svg/>"), Err(LogoError::InvalidXmlPreamble));
    assert_eq!(verify_xml_preamble(b"<?xml version=\"1.0\"?"), Err(LogoError::InvalidXmlPreamble));
    assert_eq!(verify_xml_preamble(b"<?xml ?>"), Ok(()));
    assert_eq!(verify_xml_preamble(b"<svg/>"), Err(LogoError::InvalidXmlPreamble));
    assert_eq!(verify_xml_logo(b"<?xml version=\"1.0\"?><svg/>"), Ok(()));
    let mut big = b"<?xml ?>".to_vec();
    big.extend_from_slice(&[b'x'; 5120]);
    assert_eq!(verify_xml_logo(&big), Err(LogoError::LogoTooBig));
    assert_eq!(verify_xml_logo(&[b'<'; 5121]), Err(LogoError::InvalidXmlPreamble));
    assert_eq!(verify_png_logo(&PNG_HEADER), Ok(()));
    assert_eq!(verify_png_logo(&PNG_HEADER[..7]), Err(LogoError::InvalidPngHeader));
    let mut big = PNG_HEADER.to_vec();
    big.extend_from_slice(&[0u8; 5120]);
    assert_eq!(verify_png_logo(&big), Err(LogoError::LogoTooBig));
}

#[test]
fn a_marketing_text_of_spaces_clears_the_field() {
    let t = update(Some("   "), Some(" New "), None);
    assert_eq!(t.query_marketing_info(), info(None, Some(" New "), Some("creator"), url("url")));
}

#[test]
fn only_the_marketing_account_uploads_a_logo() {
    let mut t = cash(vec![], None, marketing_by("creator")).unwrap();
    let r = t.execute_upload_logo(&s("someone"), Logo::Url(s("x"))).err();
    assert_eq!(r, Some(TokenError::Unauthorized));
    let mut t = cash(vec![], None, None).unwrap();
    let r = t.execute_upload_logo(&s("creator"), Logo::Url(s("x"))).err();
    assert_eq!(r, Some(TokenError::Unauthorized));
}

#[test]
fn instantiate_refuses_a_bad_logo() {
    let m = Some(InstantiateMarketingInfo {
        project: None,
        description: None,
        marketing: Some(s("creator")),
        logo: Some(Logo::Embedded(EmbeddedLogo::Png(vec![1, 2]))),
    });
    assert_eq!(cash(vec![], None, m).err(), Some(TokenError::Logo(LogoError::InvalidPngHeader)));
}

#[test]
fn transfer_reports_the_amount_in_decimal() {
    let mut t = do_instantiate("addr0001", 5000);
    let res = t.execute_transfer(&s("addr0001"), s("addr0002"), 1234).unwrap();
    let attrs: Vec<(String, String)> = res.attributes.iter().map(|a| (a.key.clone(), a.value.clone())).collect();
    assert_eq!(
        attrs,
        vec![(s("action"), s("transfer")), (s("from"), s("addr0001")), (s("to"), s("addr0002")), (s("amount"), s("1234"))]
    );
    assert_eq!(
        t.execute_transfer(&s("addr0001"), s("addr0002"), 4000).err(),
        Some(TokenError::CannotSub { balance: 3766, amount: 4000 })
    );
}

#[test]
fn initial_balances_add_up_to_the_supply() {
    let coins = vec![
        Cw20Coin { address: s("addr0001"), amount: 5 },
        Cw20Coin { address: s("addr0002"), amount: 7 },
        Cw20Coin { address: s("addr0003"), amount: 11 },
    ];
    let t = Token::instantiate(s("Cash Token"), s("CASH"), 9, coins, None, None, NOW).unwrap();
    let sum: u128 = ["addr0001", "addr0002", "addr0003"].iter().map(|a| t.query_balance(&s(a))).sum();
    assert_eq!(sum, t.query_token_info().total_supply);
    assert_eq!(sum, 23);
}

#[test]
fn a_repeated_address_keeps_its_last_balance() {
    let coins = vec![Cw20Coin { address: s("addr0001"), amount: 1 }, Cw20Coin { address: s("addr0001"), amount: 2 }];
    let t = Token::instantiate(s("Cash Token"), s("CASH"), 9, coins, None, None, NOW).unwrap();
    assert_eq!(t.query_balance(&s("addr0001")), 2);
    assert_eq!(t.query_token_info().total_supply, 3);
}

/// A schedule that starts now: ten tokens every 300 s, two thousand in all.
fn schedule_from_now() -> VestingDetails {
    VestingDetails {
        vesting_start_timestamp: NOW,
        initial_vesting_count: 0,
        initial_vesting_consumed: 0,
        vesting_periodicity: 300,
        vesting_count_per_period: 10,
        total_vesting_token_count: 2000,
        total_claimed_tokens_till_now: 0,
        last_claimed_timestamp: NOW,
        tokens_available_to_claim: 0,
        last_vesting_timestamp: NOW,
        cliff_period: 0,
        category_address: Some(s("addr0002")),
    }
}

#[test]
fn contract_test_vesting_at_tge() {
    let mut vesting_details = schedule_from_now();
    vesting_details.tokens_available_to_claim += vesting_details.vesting_count_per_period;
    let va = calculate_tokens_for_this_period(s("addr0002"), NOW, vesting_details).unwrap();
    assert_eq!(va.amount, 0);
}

#[test]
fn a_transfer_sent_straight_back_restores_the_balances() {
    let mut t = do_instantiate("addr0001", 12340000);
    t.execute_transfer(&s("addr0001"), s("addr0002"), 1000).unwrap();
    assert_eq!(t.query_balance(&s("addr0001")), 12339000);
    assert_eq!(t.query_balance(&s("addr0002")), 1000);
    assert_eq!(t.query_balance(&s("addr0003")), 0);
    t.execute_transfer(&s("addr0002"), s("addr0001"), 1000).unwrap();
    assert_eq!(t.query_balance(&s("addr0001")), 12340000);
    assert_eq!(t.query_balance(&s("addr0002")), 0);
    assert_eq!(t.query_token_info().total_supply, 12340000);
}

#[test]
fn refused_mints_and_transfers_leave_a_full_balance_alone() {
    let mut t = do_instantiate_with_minter("full", u128::MAX - 10, "minter", Some(u128::MAX - 5));
    // the cap refuses the mint before the recipient's balance is touched
    assert_eq!(t.execute_mint(&s("minter"), s("full"), 10).err(), Some(TokenError::CannotExceedCap));
    // a sender short of tokens is refused before the recipient's balance is touched
    assert_eq!(
        t.execute_transfer(&s("empty"), s("full"), 20).err(),
        Some(TokenError::CannotSub { balance: 0, amount: 20 })
    );
    assert_eq!(t.query_balance(&s("full")), u128::MAX - 10);
}

#[test]
fn texts_of_white_space_only_clear_the_marketing_fields() {
    let t = update(Some(" \t\n"), Some("\u{a0}\u{3000}"), None);
    assert_eq!(t.query_marketing_info(), info(None, None, Some("creator"), url("url")));
    let t = update(Some(" spaced "), Some("\u{2003}x"), None);
    assert_eq!(t.query_marketing_info(), info(Some(" spaced "), Some("\u{2003}x"), Some("creator"), url("url")));
}

#[test]
fn amounts_are_written_in_decimal() {
    let r = fury_contracts::response::payout(s("token"), s("to"), 0, "reward", false);
    assert_eq!(r.data, Some(s("Amount 0 transferred")));
    let r = fury_contracts::response::payout(s("token"), s("to"), u128::MAX, "reward", true);
    assert_eq!(r.attributes[1].value, u128::MAX.to_string());
    let r = fury_contracts::response::payout(s("token"), s("to"), 1020, "reward", true);
    assert_eq!(r.data, Some(s("Amount 1020 transferred")));
}
