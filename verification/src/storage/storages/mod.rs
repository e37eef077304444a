pub mod adj_map;
