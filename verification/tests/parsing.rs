use rinex::constellation::Constellation;
use rinex::epoch::Epoch;
use rinex::epoch::TimeScale;
use rinex::header::Header;
use rinex::header::HeaderFields;
use rinex::header::Version;
use rinex::observable::Observable;
use rinex::observation::record::fmt_epoch;
use rinex::observation::record::parse_epoch;
use rinex::observation::EpochFlag;

#[test]
fn test_parse_v2() {
    let t0 = Epoch::from_str("2021-12-21T00:00:00 GPST").unwrap();
    let mut obs_header = HeaderFields::default().with_time_of_first_obs(t0);
    for code in ["L1", "L2", "C1", "C2", "P1", "P2", "D1", "D2", "S1", "S2"] {
        let obs = Observable::from_str(code).unwrap();
        for constell in [Constellation::GPS, Constellation::Glonass] {
            obs_header.push_code(constell, obs.clone());
        }
    }
    let header = Header::default()
        .with_version(Version { major: 2, minor: 0 })
        .with_constellation(Constellation::GPS)
        .with_observation_fields(obs_header);
    for (descriptor, epoch, flag, num_sat) in [
        (
            " 21 12 21  0  0  0.0000000  0  1G07
131857102.133 6 102745756.54245  25091572.300
25091565.600        -411.138        -320.373          37.350          35.300",
            Epoch::from_str("2021-12-21T00:00:00 GPST").unwrap(),
            EpochFlag::Okay,
            1,
        ),
        (
            " 21 01 01 00 00 00.0000000  0 24G07G08G10G13G15G16G18G20G21G23G26G27
                                G30R01R02R03R08R09R15R16R17R18R19R24
  24178026.635 6  24178024.891 6                 127056391.69906  99004963.01703
                  24178026.139 3  24178024.181 3        38.066          22.286  
                
  21866748.928 7  21866750.407 7  21866747.537 8 114910552.08207  89540700.32608
  85809828.27608  21866748.200 8  21866749.482 8        45.759          49.525  
        52.161  
  21458907.960 8  21458908.454 7  21458905.489 8 112767333.29708  87870655.27209
  84209365.43808  21458907.312 9  21458908.425 9        50.526          55.388  
        53.157  
  25107711.730 5                                 131941919.38305 102811868.09001
                  25107711.069 1  25107709.586 1        33.150           8.952  
                
  24224693.760 6  24224693.174 5                 127301651.00206  99196079.53805
                  24224693.407 5  24224691.898 5        36.121          31.645  
                
  21749627.212 8                                 114295057.63608  89061063.16706
                  21749626.220 6  21749624.795 6        48.078          39.240  
                
  23203962.113 6  23203960.554 6  23203963.222 7 121937655.11806  95016353.74904
  91057352.20207  23203961.787 4  23203960.356 4        41.337          28.313  
        46.834  
  21336671.709 7                                 112124979.20907  87370110.32706
                  21336670.444 6  21336669.290 6        47.463          39.510  
                
  23746180.287 6                                 124787018.18706  97236633.91403
                  23746179.022 3  23746178.067 3        38.820          22.819  
                
  21413431.070 7  21413429.404 7  21413431.981 8 112528356.08507  87684432.45406
  84030922.83008  21413430.740 6  21413429.066 6        47.698          40.362  
        52.487  
  23960478.475 6  23960480.103 6  23960477.163 7 125913155.35006  98114150.90306
  94026064.18807  23960477.733 6  23960479.641 6        39.261          36.752  
        42.698  
  20160980.296 8  20160980.485 8  20160978.441 9 105946683.25408  82555869.20609
  79116040.25909  20160979.559 9  20160980.098 9        51.584          58.520  
        55.715  
  24895095.878 6  24895095.931 5  24895094.407 6 130824617.27906 101941255.30503
  97693699.82606  24895095.087 3  24895095.779 3        37.800          20.405  
        41.373  
  21976735.287 7  21976740.713 6                 117478268.97407  91372016.95306
                                                        43.731          39.712  
                
  21452856.821 8  21452861.434 7                 114476565.58608  89037342.61407
                                                        48.976          45.633  
                
  24356366.067 6  24356369.934 6                 130381530.94906 101407869.02906
                                                        40.212          40.570  
                
  24640492.817 5  24640495.563 5                 131948754.31105 102626826.44805
                                                        31.019          35.719  
                
  22631771.515 7  22631773.097 7                 120852362.72507  93996312.56907
                                                        45.041          42.955  
                
  22333745.843 7  22333750.087 6                 119344755.47207  92823708.20506
                                                        47.198          41.178  
                
  20767116.205 7  20767118.004 7                 110934198.55007  86282150.62307
                                                        46.750          44.206  
                
  19609338.615 8  19609342.136 8                 104933562.47908  81615007.54508
                                                        53.404          49.913  
                
  20155814.670 8  20155818.459 8                 107593135.54008  83683576.27208
                                                        52.338          49.531  
                
  23769631.385 5  23769635.136 6                 127151515.87305  98895637.55806
                                                        32.323          37.626  
                
  23219147.863 6  23219153.271 6                 124163221.43806  96571415.97606
                                                        41.318          39.432",
            Epoch::from_str("2021-01-01T00:00:00 GPST").unwrap(),
            EpochFlag::Okay,
            24,
        ),
    ] {
        let parsed = parse_epoch(&header, descriptor, TimeScale::GPST);
        assert!(parsed.is_ok(), "parsing error: {:?}", parsed.as_ref().err());
        let (key, entry) = parsed.unwrap();
        assert_eq!(key.epoch, epoch);
        assert_eq!(key.flag, flag);
        assert!(entry.clock_offset.is_none());

        let unique_sv = entry.observations.vehicles();
        assert_eq!(unique_sv.len(), num_sat, "bad number of SV");

        let reciprocal = fmt_epoch(&header, &key, &entry);
        assert!(
            reciprocal.is_ok(),
            "failed to dump back to string: {:?}",
            reciprocal.as_ref().err()
        );
    }
}
#[test]
fn test_parse_v3() {
    let t0 = Epoch::from_str("2021-12-21T00:00:00 GPST").unwrap();
    let mut obs_header = HeaderFields::default().with_time_of_first_obs(t0);
    for code in [
        "C1C", "L1C", "S1C", "C2S", "L2S", "S2S", "C2W", "L2W", "S2W", "C5Q", "L5Q", "S5Q",
    ] {
        let obs = Observable::from_str(code).unwrap();
        for constell in [Constellation::GPS, Constellation::Glonass] {
            obs_header.push_code(constell, obs.clone());
        }
    }
    let header = Header::default()
        .with_version(Version { major: 3, minor: 0 })
        .with_constellation(Constellation::GPS)
        .with_observation_fields(obs_header);
    for (descriptor, epoch, flag, num_sat) in [
    (
"> 2022 01 09 00 00  0.0000000  0  9
G01  22345079.240   117424213.48008        48.850    22345080.640    91499404.57507        46.950    22345080.580    91499412.56807        44.500    22345078.900    87686944.70808        49.550
G03  25106377.980   131934909.06607        43.000    25106381.840   102806423.66007        42.300    25106381.060   102806435.67506        37.850    25106380.680    98522827.50406        40.650
G08  20374390.760   107068179.92108        52.300    20374392.480    83429765.07708        52.950    20374391.620    83429761.07908        52.250    20374389.640    79953524.82009        54.350
G10  22464836.260   118053596.15308        52.800    22464836.760    91989838.33208        48.900    22464836.820    91989850.33008        52.700    22464834.400    88156942.76908        49.900
R01  20207718.320   108021892.15508        49.200    20207720.980    84017055.40007        43.700    20207720.080    84017060.40107        44.650
R02  22668665.500   120964368.87508        49.350    22668667.420    94083413.28907        43.000    22668667.400    94083412.28707        43.550
R08  21849258.020   117001804.29807        45.900    21849257.240    91001400.22507        44.650    21849257.080    91001404.23007        45.300
R14  22065079.340   117619290.65008        51.050    22065080.780    91481666.44207        43.000    22065081.000    91481659.45507        43.300
R15  21933521.660   117206098.42208        51.450    21933521.820    91160302.69907        44.050    21933521.860    91160306.70907        44.650",
Epoch::from_str("2022-01-09T00:00:00 GPST").unwrap(),
EpochFlag::Okay,
9,
),
    ] {
        let parsed = parse_epoch(&header, descriptor, TimeScale::GPST);
        assert!(parsed.is_ok(), "parsing error: {:?}", parsed.as_ref().err());
        let (key, entry) = parsed.unwrap();
        assert_eq!(key.epoch, epoch);
        assert_eq!(key.flag, flag);
        assert!(entry.clock_offset.is_none());

        let unique_sv = entry.observations.vehicles();
        assert_eq!(unique_sv.len(), num_sat, "bad number of SV");
    }
}
#[test]
fn v2_npaz_content() {
    let t0 = Epoch::from_str("2021-12-21T00:00:00 GPST").unwrap();
    let mut obs_header = HeaderFields::default().with_time_of_first_obs(t0);
    for code in ["C1", "L1", "L2", "P2", "S1", "S2"] {
        let obs = Observable::from_str(code).unwrap();
        for constell in [Constellation::GPS, Constellation::Glonass] {
            obs_header.push_code(constell, obs.clone());
        }
    }
    let header = Header::default()
        .with_version(Version { major: 2, minor: 0 })
        .with_constellation(Constellation::Mixed)
        .with_observation_fields(obs_header);
    for (descriptor, epoch, flag, num_sat) in [(
        " 21 12 21 00 47 30.0000000  0 13G01G08G10G16G21G23G32R04R05R06R12R20
                                R21
  24993483.334   131341646.26201                                        33.000  

  21063801.400   110691014.26607  86252749.55647  21063803.500          48.000  
        43.000  
  20794853.942   109277716.06007  85151471.89148  20794856.022          51.000  
        47.000  
  23287051.506   122374275.11906  95356574.87046  23287051.226          43.000  
        23.000  
  22914946.488   120418860.17306  93832876.83746  22914944.928          43.000  
        22.000  
  22514647.750   118315291.04406  92193736.44046  22514647.910          43.000  
        26.000  
  23391437.004   122922836.81105  95784029.48247  23391439.384          42.000  
        33.000  
  23309588.108   124821803.02605                                        41.000  

  20051677.568   107187721.31007  83368233.94047  20051673.008          52.000  
        34.000  
  20948630.044   111785918.59403                                        37.000  

  22904976.108   122354269.96206  95164435.36146  22904973.788          43.000  
        26.000  
  20387428.064   109020741.40904  84793909.88146  20387426.264          38.000  
        31.000  
  20504895.844   109725859.84707  85342322.66146  20504893.384          49.000  
        27.000",
        Epoch::from_str("2021-12-21T00:47:30 GPST").unwrap(),
        EpochFlag::Okay,
        13,
    )] {
        let parsed = parse_epoch(&header, descriptor, TimeScale::GPST);
        assert!(parsed.is_ok(), "parsing error: {:?}", parsed.as_ref().err());
        let (key, entry) = parsed.unwrap();
        assert_eq!(key.epoch, epoch);
        assert_eq!(key.flag, flag);

        let unique_sv = entry.observations.vehicles();
        assert_eq!(unique_sv.len(), num_sat, "bad number of SV");
    }
}
#[test]
fn v2_aopr_content() {
    let t0 = Epoch::from_str("2017-01-01T00:00:00 GPST").unwrap();
    let mut obs_header = HeaderFields::default().with_time_of_first_obs(t0);
    for code in ["L1", "L2", "C1", "P1", "P2"] {
        let obs = Observable::from_str(code).unwrap();
        for constell in [Constellation::GPS] {
            obs_header.push_code(constell, obs.clone());
        }
    }
    let header = Header::default()
        .with_version(Version { major: 2, minor: 0 })
        .with_constellation(Constellation::GPS)
        .with_observation_fields(obs_header);
    for (descriptor, epoch, flag, num_sat) in [
        (
            " 17  1  1  0  0  0.0000000  0 10G31G27G 3G32G16G 8G14G23G22G26
 -14746974.73049 -11440396.20948  22513484.6374   22513484.7724   22513487.3704
 -19651355.72649 -15259372.67949  21319698.6624   21319698.7504   21319703.7964
  -9440000.26548  -7293824.59347  23189944.5874   23189944.9994   23189951.4644
 -11141744.16748  -8631423.58147  23553953.9014   23553953.6364   23553960.7164
 -21846711.60849 -16970657.69649  20528865.5524   20528865.0214   20528868.5944
  -2919082.75648  -2211037.84947  24165234.9594   24165234.7844   24165241.6424
 -20247177.70149 -15753542.44648  21289883.9064   21289883.7434   21289887.2614
 -15110614.77049 -11762797.21948  23262395.0794   23262394.3684   23262395.3424
 -16331314.56648 -12447068.51348  22920988.2144   22920987.5494   22920990.0634
 -15834397.66049 -12290568.98049  21540206.1654   21540206.1564   21540211.9414",
            Epoch::from_str("2017-01-01T00:00:00 GPST").unwrap(),
            EpochFlag::Okay,
            10,
        ),
        (
            " 17  1  1  3 33 40.0000000  0  9G30G27G11G16G 8G 7G23G 9G 1
  -4980733.18548  -3805623.87347  24352349.1684   24352347.9244   24352356.1564
  -9710828.79748  -7513506.68548  23211317.1574   23211317.5034   23211324.2834
 -26591640.60049 -20663619.71349  20668830.8234   20668830.4204   20668833.2334
  -2876691.02148  -2188825.98947  24138743.7034   24138743.6094   24138745.3184
 -19659629.49649 -15255613.81549  20979609.7704   20979609.4094   20979615.2514
 -18951526.07649 -14757441.84348  21470398.1684   21470398.1574   21470400.8554
 -18143490.68049 -14126079.68448  22685259.0754   22685258.3664   22685261.2134
 -16594887.53049 -12883140.10148  22336785.6934   22336785.4334   22336790.8924
 -19095445.86249 -14826971.50648  21708306.6584   21708306.5704   21708312.9414",
            Epoch::from_str("2017-01-01T03:33:40 GPST").unwrap(),
            EpochFlag::Okay,
            9,
        ),
        (
            " 17  1  1  6  9 10.0000000  0 11G30G17G 3G11G19G 8G 7G 6G22G28G 1
 -23668184.66249 -18367274.15149  20796245.2334   20796244.8234   20796250.6334
  -5877878.73348  -4575160.53248  23410058.5724   23410059.2714   23410062.1064
 -14330784.79049 -11159200.76948  22386555.0924   22386555.5294   22386561.1694
 -18535782.38249 -14386326.63548  22201809.2434   22201808.6284   22201811.8674
  -2818370.49848  -2158733.26747  24199387.4244   24199386.1504   24199389.5674
  -1657187.18348  -1227738.78347  24405361.4394   24405361.8174   24405367.9104
 -20423274.04149 -15904260.09048  21190335.4504   21190335.3064   21190338.4104
  -3369328.09448  -2572763.92047  24203321.5404   24203321.3864   24203325.7804
 -14092358.97049 -10974147.19148  22566359.9814   22566358.6994   22566360.4184
 -15283523.06549 -11885593.19948  22273612.1774   22273611.9344   22273614.5104
 -21848286.72849 -16972039.81549  21184456.3894   21184456.9144   21184462.1224",
            Epoch::from_str("2017-01-01T06:09:10 GPST").unwrap(),
            EpochFlag::Okay,
            11,
        ),
    ] {
        let parsed = parse_epoch(&header, descriptor, TimeScale::GPST);
        assert!(parsed.is_ok(), "parsing error: {:?}", parsed.as_ref().err());
        let (key, entry) = parsed.unwrap();
        assert_eq!(key.epoch, epoch);
        assert_eq!(key.flag, flag);

        let unique_sv = entry.observations.vehicles();
        assert_eq!(unique_sv.len(), num_sat, "bad number of SV");

        let reciprocal = fmt_epoch(&header, &key, &entry);
        assert!(
            reciprocal.is_ok(),
            "failed to dump back to string: {:?}",
            reciprocal.as_ref().err()
        );
    }
}
