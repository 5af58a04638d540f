pub mod poker_util;
