use ref_exchange::errors::ExchangeError;
use ref_exchange::unit_lpt_cumulative_infos::{UnitShareCumulativeInfo, RECORD_INTERVAL_SEC};

#[test]
fn test_base() {
    let mut usci = UnitShareCumulativeInfo::new(1000, vec![100u128, 100, 100, 10000]);
    assert!(usci.cumulative_token_amounts.iter().zip(vec![100u128, 100, 100, 10000]).all(|(x, y)| x.as_u128() == y));
    assert!(usci.records.len() == 1);
    assert!(usci.records[0].time_sec == 1000);
    assert!(usci.records[0].cumulative_token_amounts.iter().zip(vec![100u128, 100, 100, 10000]).all(|(x, y)| x.as_u128() == y));

    usci.update(2000, vec![200u128, 200, 200, 20000]);
    assert!(usci.records.len() == 2);

    assert!(usci
        .cumulative_token_amounts
        .iter()
        .zip(vec![100u128, 100, 100, 10000])
        .zip(vec![200u128, 200, 200, 20000])
        .all(|((res, x), y)| { res.as_u128() == x + y * 1000 }));

    assert!(usci.cumulative_token_amounts.iter().zip(usci.records[1].cumulative_token_amounts.iter()).all(|(x, y)| x.eq(y)));
    assert!(usci
        .twap_token_amounts()
        .unwrap()
        .iter()
        .zip(usci.records[0].cumulative_token_amounts.iter())
        .zip(usci.records[1].cumulative_token_amounts.iter())
        .all(|((res, x), y)| { *res == y.sub(x).as_u128() / 1000 }));
}

#[test]
fn test_long_time_no_operation() {
    let mut usci = UnitShareCumulativeInfo::new(1000, vec![100u128, 100, 100, 10000]);
    assert!(usci.cumulative_token_amounts.iter().zip(vec![100u128, 100, 100, 10000]).all(|(x, y)| x.as_u128() == y));
    assert!(usci.records.len() == 1);
    assert!(usci.records[0].time_sec == 1000);
    assert!(usci.records[0].cumulative_token_amounts.iter().zip(vec![100u128, 100, 100, 10000]).all(|(x, y)| x.as_u128() == y));

    usci.update(1010, vec![100u128, 100, 100, 10000]);
    assert!(usci.records.len() == 1);
    assert!(usci.twap_token_amounts().unwrap().into_iter().zip(vec![100u128, 100, 100, 10000]).all(|(x, y)| x == y));

    usci.update(1000 + RECORD_INTERVAL_SEC, vec![100u128, 100, 100, 10000]);
    assert!(usci.records.len() == 2);
    assert!(usci.twap_token_amounts().unwrap().into_iter().zip(vec![100u128, 100, 100, 10000]).all(|(x, y)| x == y));

    usci.update(1000 + 2 * RECORD_INTERVAL_SEC, vec![100u128, 100, 100, 10000]);
    assert!(usci.records.len() == 3);
    assert!(usci.twap_token_amounts().unwrap().into_iter().zip(vec![100u128, 100, 100, 10000]).all(|(x, y)| x == y));

    usci.update(1000 + 6 * RECORD_INTERVAL_SEC, vec![100u128, 100, 100, 10000]);
    assert!(usci.records.len() == 4);
    assert!(usci.twap_token_amounts().unwrap().into_iter().zip(vec![100u128, 100, 100, 10000]).all(|(x, y)| x == y));

    usci.update(1000 + 7 * RECORD_INTERVAL_SEC, vec![100u128, 100, 100, 10000]);
    assert!(usci.records.len() == 5);
    assert!(usci.twap_token_amounts().unwrap().into_iter().zip(vec![100u128, 100, 100, 10000]).all(|(x, y)| x == y));

    usci.update(1000 + 20 * RECORD_INTERVAL_SEC, vec![100u128, 100, 100, 10000]);
    assert!(usci.records.len() == 6);
    assert!(usci.twap_token_amounts().unwrap().into_iter().zip(vec![100u128, 100, 100, 10000]).all(|(x, y)| x == y));

    usci.update(1000 + 50 * RECORD_INTERVAL_SEC, vec![100u128, 100, 100, 10000]);
    assert!(usci.records.len() == 6);
    assert!(usci.twap_token_amounts().unwrap().into_iter().zip(vec![100u128, 100, 100, 10000]).all(|(x, y)| x == y));
}

#[test]
fn twap_right_after_creation_is_refused() {
    let usci = UnitShareCumulativeInfo::new(1000, vec![5u128, 7]);
    assert_eq!(usci.twap_token_amounts(), Err(ExchangeError::JustInitialized));
    assert_eq!(ExchangeError::JustInitialized.message(), "Just initialized, try again!");
}

#[test]
fn twap_averages_over_time() {
    let mut usci = UnitShareCumulativeInfo::new(0, vec![10u128]);
    usci.update(100, vec![30u128]);
    // 10 + 30 * 100 accumulated over 100 seconds since the first record
    assert_eq!(usci.cumulative_token_amounts[0].as_u128(), 3010);
    assert_eq!(usci.twap_token_amounts().unwrap(), vec![30]);
}
